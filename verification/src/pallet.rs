//! The offering rules: the stored state of all offerings and the calls that
//! change it.

use vstd::prelude::*;
use vstd::hash_map::HashMapWithView;
use crate::arith::{mul_div, percent_of, pow10_saturating, spec_mul_div, spec_percent_of, spec_pow10_saturating};
use crate::ledger::{
    AccountData, BalanceStatus, Ledger, min_balance, spec_can_withdraw, spec_repatriate, spec_repatriate_result,
    spec_reserve, spec_slash_reserved, spec_transfer, spec_transfer_result, spec_unreserve,
};
use crate::reward::{sat_sub};
use crate::types::{
    AccountId, AssetMetadata, Balance, BlockNumber, Countries, CurrencyId, DispatchError, Error, Event,
    Config, IcoInfo, IcoLock, IcoParameters, LedgerError, Origin, OriginRule, Percent, PendingInfo,
    Release, UnRelease, UnReleaseView,
};

verus! {

broadcast use vstd::std_specs::hash::group_hash_axioms;

/// The storage key of an offering: its project asset and its number.
pub open spec fn ico_key(c: CurrencyId, index: u32) -> u64 {
    (c as int * 0x1_0000_0000int + index as int) as u64
}

/// The storage key of the time locks of an account in one asset.
pub open spec fn lock_key(who: AccountId, c: CurrencyId) -> u128 {
    (who as int * 0x1_0000_0000int + c as int) as u128
}

proof fn lemma_ico_key_injective(c1: CurrencyId, i1: u32, c2: CurrencyId, i2: u32)
    requires
        ico_key(c1, i1) == ico_key(c2, i2),
    ensures
        c1 == c2,
        i1 == i2,
{
    let b: int = 0x1_0000_0000int;
    assert(c1 as int * b + i1 as int <= u64::MAX) by (nonlinear_arith)
        requires 0 <= c1 <= u32::MAX, 0 <= i1 <= u32::MAX, b == 0x1_0000_0000int;
    assert(c2 as int * b + i2 as int <= u64::MAX) by (nonlinear_arith)
        requires 0 <= c2 <= u32::MAX, 0 <= i2 <= u32::MAX, b == 0x1_0000_0000int;
    assert(c1 == c2 && i1 == i2) by (nonlinear_arith)
        requires
            c1 as int * b + i1 as int == c2 as int * b + i2 as int,
            0 <= i1 < b, 0 <= i2 < b, 0 <= c1, 0 <= c2, b > 0;
}

proof fn lemma_lock_key_injective(w1: AccountId, c1: CurrencyId, w2: AccountId, c2: CurrencyId)
    requires
        lock_key(w1, c1) == lock_key(w2, c2),
    ensures
        w1 == w2,
        c1 == c2,
{
    let b: int = 0x1_0000_0000int;
    assert(w1 as int * b + c1 as int <= u128::MAX) by (nonlinear_arith)
        requires 0 <= w1 <= u64::MAX, 0 <= c1 <= u32::MAX, b == 0x1_0000_0000int;
    assert(w2 as int * b + c2 as int <= u128::MAX) by (nonlinear_arith)
        requires 0 <= w2 <= u64::MAX, 0 <= c2 <= u32::MAX, b == 0x1_0000_0000int;
    assert(w1 == w2 && c1 == c2) by (nonlinear_arith)
        requires
            w1 as int * b + c1 as int == w2 as int * b + c2 as int,
            0 <= c1 < b, 0 <= c2 < b, 0 <= w1, 0 <= w2, b > 0;
}

fn ico_key_of(c: CurrencyId, index: u32) -> (k: u64)
    ensures
        k == ico_key(c, index),
{
    assert(c as int * 0x1_0000_0000int + index as int <= u64::MAX) by (nonlinear_arith)
        requires 0 <= c <= u32::MAX, 0 <= index <= u32::MAX;
    (c as u64) * 0x1_0000_0000u64 + (index as u64)
}

fn lock_key_of(who: AccountId, c: CurrencyId) -> (k: u128)
    ensures
        k == lock_key(who, c),
{
    assert(who as int * 0x1_0000_0000int + c as int <= u128::MAX) by (nonlinear_arith)
        requires 0 <= who <= u64::MAX, 0 <= c <= u32::MAX;
    (who as u128) * 0x1_0000_0000u128 + (c as u128)
}

/// An offering as the store keeps it under key `k`: numbered, started, with
/// nonzero amounts on both sides of the exchange, and stored under its own
/// asset and number.
pub open spec fn ico_entry_wf(k: u64, v: IcoInfo) -> bool {
    &&& v.index is Some
    &&& v.start_time is Some
    &&& k == ico_key(v.currency_id, v.index->0)
    &&& v.total_ico_amount != 0
    &&& v.total_exchange_amount != 0
}

/// A pending offering has nonzero amounts on both sides of the exchange.
pub open spec fn pending_wf(p: PendingInfo) -> bool {
    &&& p.ico.total_ico_amount != 0
    &&& p.ico.total_exchange_amount != 0
}

/// `a + b`, or `u128::MAX` when the sum does not fit.
pub open spec fn sat_add(a: Balance, b: Balance) -> Balance {
    if a + b > u128::MAX { u128::MAX } else { (a + b) as u128 }
}

/// The position of the first book of offering `(c, index)` in a list of books.
pub open spec fn asset_pos(s: Seq<UnReleaseView>, c: CurrencyId, index: u32) -> Option<int>
    decreases s.len(),
{
    if s.len() == 0 {
        None
    } else {
        match asset_pos(s.drop_last(), c, index) {
            Some(p) => Some(p),
            None => if s.last().currency_id == c && s.last().index == index {
                Some(s.len() - 1)
            } else {
                None
            },
        }
    }
}

/// The position of the first request about offering `(c, index)`.
pub open spec fn release_pos(s: Seq<Release>, c: CurrencyId, index: u32) -> Option<int>
    decreases s.len(),
{
    if s.len() == 0 {
        None
    } else {
        match release_pos(s.drop_last(), c, index) {
            Some(p) => Some(p),
            None => if s.last().currency_id == c && s.last().index == index {
                Some(s.len() - 1)
            } else {
                None
            },
        }
    }
}

/// The position of the first pending offering of asset `c`.
pub open spec fn pending_pos(s: Seq<PendingInfo>, c: CurrencyId) -> Option<int>
    decreases s.len(),
{
    if s.len() == 0 {
        None
    } else {
        match pending_pos(s.drop_last(), c) {
            Some(p) => Some(p),
            None => if s.last().ico.currency_id == c { Some(s.len() - 1) } else { None },
        }
    }
}

/// Removes the element at `i` by moving the last element into its place.
pub open spec fn seq_swap_remove<A>(s: Seq<A>, i: int) -> Seq<A> {
    s.update(i, s.last()).drop_last()
}

pub(crate) proof fn lemma_asset_pos_facts(s: Seq<UnReleaseView>, c: CurrencyId, index: u32)
    ensures
        match asset_pos(s, c, index) {
            Some(p) => 0 <= p < s.len() && s[p].currency_id == c && s[p].index == index
                && forall|j: int| 0 <= j < p ==> !(#[trigger] s[j].currency_id == c && s[j].index == index),
            None => forall|j: int| 0 <= j < s.len() ==> !(#[trigger] s[j].currency_id == c && s[j].index == index),
        },
    decreases s.len(),
{
    if s.len() > 0 {
        lemma_asset_pos_facts(s.drop_last(), c, index);
        assert forall|j: int| 0 <= j < s.len() - 1 implies s.drop_last()[j] == s[j] by {}
    }
}

proof fn lemma_release_pos_facts(s: Seq<Release>, c: CurrencyId, index: u32)
    ensures
        match release_pos(s, c, index) {
            Some(p) => 0 <= p < s.len() && s[p].currency_id == c && s[p].index == index
                && forall|j: int| 0 <= j < p ==> !(#[trigger] s[j].currency_id == c && s[j].index == index),
            None => forall|j: int| 0 <= j < s.len() ==> !(#[trigger] s[j].currency_id == c && s[j].index == index),
        },
    decreases s.len(),
{
    if s.len() > 0 {
        lemma_release_pos_facts(s.drop_last(), c, index);
        assert forall|j: int| 0 <= j < s.len() - 1 implies s.drop_last()[j] == s[j] by {}
    }
}

proof fn lemma_pending_pos_facts(s: Seq<PendingInfo>, c: CurrencyId)
    ensures
        match pending_pos(s, c) {
            Some(p) => 0 <= p < s.len() && s[p].ico.currency_id == c
                && forall|j: int| 0 <= j < p ==> #[trigger] s[j].ico.currency_id != c,
            None => forall|j: int| 0 <= j < s.len() ==> #[trigger] s[j].ico.currency_id != c,
        },
    decreases s.len(),
{
    if s.len() > 0 {
        lemma_pending_pos_facts(s.drop_last(), c);
        assert forall|j: int| 0 <= j < s.len() - 1 implies s.drop_last()[j] == s[j] by {}
    }
}

/// The position in `v` of the first book of offering `(c, index)`.
fn find_asset(v: &Vec<UnRelease>, c: CurrencyId, index: u32) -> (r: Option<usize>)
    ensures
        r == (match asset_pos(v@.map_values(|u: UnRelease| u@), c, index) {
            Some(p) => Some(p as usize),
            None => None::<usize>,
        }),
        r is Some ==> asset_pos(v@.map_values(|u: UnRelease| u@), c, index) == Some(r->0 as int),
{
    let ghost s = v@.map_values(|u: UnRelease| u@);
    let mut i: usize = 0;
    while i < v.len()
        invariant
            i <= v@.len(),
            s == v@.map_values(|u: UnRelease| u@),
            asset_pos(s.take(i as int), c, index) is None,
        decreases v@.len() - i,
    {
        assert(s.take(i as int + 1).drop_last() =~= s.take(i as int));
        if v[i].currency_id == c && v[i].index == index {
            proof { lemma_asset_pos_prefix(s, i as int + 1, c, index); }
            return Some(i);
        }
        i = i + 1;
    }
    assert(s.take(i as int) =~= s);
    None
}

proof fn lemma_asset_pos_prefix(s: Seq<UnReleaseView>, k: int, c: CurrencyId, index: u32)
    requires
        0 <= k <= s.len(),
        asset_pos(s.take(k), c, index) is Some,
    ensures
        asset_pos(s, c, index) == asset_pos(s.take(k), c, index),
    decreases s.len(),
{
    if k < s.len() {
        assert(s.drop_last().take(k) =~= s.take(k));
        lemma_asset_pos_prefix(s.drop_last(), k, c, index);
    } else {
        assert(s.take(k) =~= s);
    }
}

proof fn lemma_release_pos_prefix(s: Seq<Release>, k: int, c: CurrencyId, index: u32)
    requires
        0 <= k <= s.len(),
        release_pos(s.take(k), c, index) is Some,
    ensures
        release_pos(s, c, index) == release_pos(s.take(k), c, index),
    decreases s.len(),
{
    if k < s.len() {
        assert(s.drop_last().take(k) =~= s.take(k));
        lemma_release_pos_prefix(s.drop_last(), k, c, index);
    } else {
        assert(s.take(k) =~= s);
    }
}

proof fn lemma_pending_pos_prefix(s: Seq<PendingInfo>, k: int, c: CurrencyId)
    requires
        0 <= k <= s.len(),
        pending_pos(s.take(k), c) is Some,
    ensures
        pending_pos(s, c) == pending_pos(s.take(k), c),
    decreases s.len(),
{
    if k < s.len() {
        assert(s.drop_last().take(k) =~= s.take(k));
        lemma_pending_pos_prefix(s.drop_last(), k, c);
    } else {
        assert(s.take(k) =~= s);
    }
}

/// The position in `v` of the first request about offering `(c, index)`.
fn find_release(v: &Vec<Release>, c: CurrencyId, index: u32) -> (r: Option<usize>)
    ensures
        r == (match release_pos(v@, c, index) {
            Some(p) => Some(p as usize),
            None => None::<usize>,
        }),
        r is Some ==> release_pos(v@, c, index) == Some(r->0 as int),
{
    let mut i: usize = 0;
    while i < v.len()
        invariant
            i <= v@.len(),
            release_pos(v@.take(i as int), c, index) is None,
        decreases v@.len() - i,
    {
        assert(v@.take(i as int + 1).drop_last() =~= v@.take(i as int));
        if v[i].currency_id == c && v[i].index == index {
            proof { lemma_release_pos_prefix(v@, i as int + 1, c, index); }
            return Some(i);
        }
        i = i + 1;
    }
    assert(v@.take(i as int) =~= v@);
    None
}

/// The position in `v` of the first pending offering of asset `c`.
fn find_pending(v: &Vec<PendingInfo>, c: CurrencyId) -> (r: Option<usize>)
    ensures
        r == (match pending_pos(v@, c) {
            Some(p) => Some(p as usize),
            None => None::<usize>,
        }),
        r is Some ==> pending_pos(v@, c) == Some(r->0 as int),
{
    let mut i: usize = 0;
    while i < v.len()
        invariant
            i <= v@.len(),
            pending_pos(v@.take(i as int), c) is None,
        decreases v@.len() - i,
    {
        assert(v@.take(i as int + 1).drop_last() =~= v@.take(i as int));
        if v[i].ico.currency_id == c {
            proof { lemma_pending_pos_prefix(v@, i as int + 1, c); }
            return Some(i);
        }
        i = i + 1;
    }
    assert(v@.take(i as int) =~= v@);
    None
}

/// All stored state of the offerings, with the balances and asset registry
/// the offerings run against.
pub struct IcoModule {
    /// The runtime's constants.
    pub config: Config,
    /// The current block height.
    pub block_number: BlockNumber,
    /// Balances of every asset.
    pub ledger: Ledger,
    /// The registered metadata of every asset.
    pub metadata: HashMapWithView<u32, AssetMetadata>,
    /// Offerings waiting for approval.
    pub pending_ico: Vec<PendingInfo>,
    /// Running offerings, by `ico_key`.
    pub ico: HashMapWithView<u64, IcoInfo>,
    /// Every account's books of the offerings it takes part in.
    pub unrelease_assets: HashMapWithView<u64, Vec<UnRelease>>,
    /// Open requests to release raised funds.
    pub request_release_info: Vec<Release>,
    /// Released tokens still under time lock, by `lock_key`.
    pub ico_locks: HashMapWithView<u128, Vec<IcoLock>>,
    /// The US dollar value raised by all offerings so far; an offering is
    /// counted once, when the first reward of it is claimed.
    pub total_usdt: Balance,
    /// The number of offerings ever approved.
    pub total_num: u32,
    /// The reward of every offering already counted into `total_usdt`, by
    /// `ico_key`: it is fixed when the first reward of the offering is
    /// claimed.
    pub ico_rewards: HashMapWithView<u64, Balance>,
    /// The numbers of the offerings of every asset.
    pub indexs: HashMapWithView<u32, Vec<u32>>,
    /// Whether an offering's unsold tokens were already settled, by `ico_key`.
    pub remain_amount_is_already_unserve: HashMapWithView<u64, bool>,
    /// The least US dollar value a participation may reach.
    pub ico_min_usdt_amount: Balance,
    /// The largest US dollar value a participation may reach.
    pub ico_max_usdt_amount: Balance,
    /// The events emitted so far.
    pub events: Vec<Event>,
}

/// The books of account `who` in the store's map of books.
pub open spec fn assets_in(m: Map<u64, Vec<UnRelease>>, who: AccountId) -> Seq<UnReleaseView> {
    if m.contains_key(who) {
        m[who]@.map_values(|u: UnRelease| u@)
    } else {
        Seq::empty()
    }
}

impl IcoModule {
    /// The invariant of the stored state.
    pub open spec fn wf(&self) -> bool {
        &&& self.ledger.wf()
        &&& forall|k: u64| #[trigger] self.ico@.contains_key(k) ==> ico_entry_wf(k, self.ico@[k])
        &&& forall|i: int| 0 <= i < self.pending_ico@.len() ==> pending_wf(#[trigger] self.pending_ico@[i])
        &&& forall|k: u64| #[trigger] self.ico@.contains_key(k) ==> self.ico@[k].index->0 <= self.total_num
        &&& forall|w: AccountId| #[trigger] crate::laws::books_unique(assets_in(self.unrelease_assets@, w))
        &&& forall|k: u64| #[trigger] self.ico_rewards@.contains_key(k) ==> (k as int) % 0x1_0000_0000 <= self.total_num
        &&& forall|k: u64| #[trigger] self.ico_rewards@.contains_key(k) && self.ico@.contains_key(k)
            ==> self.ico_rewards@[k] <= crate::reward::reward_cap(self.ico@[k].total_usdt as int,
                self.config.ico_total_reward as int)
    }

    /// Books stay unique when only the books of `a` and `b` changed and
    /// theirs are unique.
    proof fn lemma_books_unique_after(&self, before: &Self, a: AccountId, b: AccountId)
        requires
            forall|w: AccountId| #[trigger] crate::laws::books_unique(assets_in(before.unrelease_assets@, w)),
            forall|w: AccountId| w != a && w != b ==> #[trigger] self.unrelease_assets@.contains_key(w)
                == before.unrelease_assets@.contains_key(w)
                && (self.unrelease_assets@.contains_key(w) ==> self.unrelease_assets@[w] == before.unrelease_assets@[w]),
            crate::laws::books_unique(self.assets_of(a)),
            crate::laws::books_unique(self.assets_of(b)),
        ensures
            forall|w: AccountId| #[trigger] crate::laws::books_unique(assets_in(self.unrelease_assets@, w)),
    {
        assert forall|w: AccountId| #[trigger] crate::laws::books_unique(assets_in(self.unrelease_assets@, w)) by {
            if w != a && w != b {
                assert(crate::laws::books_unique(assets_in(before.unrelease_assets@, w)));
                assert(assets_in(self.unrelease_assets@, w) == assets_in(before.unrelease_assets@, w));
            }
        }
    }

    /// Offering `index` of asset `c`, if there is one.
    pub open spec fn ico_of(&self, c: CurrencyId, index: u32) -> Option<IcoInfo> {
        if self.ico@.contains_key(ico_key(c, index)) {
            Some(self.ico@[ico_key(c, index)])
        } else {
            None
        }
    }

    /// The books of account `who`.
    pub open spec fn assets_of(&self, who: AccountId) -> Seq<UnReleaseView> {
        assets_in(self.unrelease_assets@, who)
    }

    /// The time locks of account `who` in asset `c`.
    pub open spec fn locks_of(&self, who: AccountId, c: CurrencyId) -> Seq<IcoLock> {
        if self.ico_locks@.contains_key(lock_key(who, c)) {
            self.ico_locks@[lock_key(who, c)]@
        } else {
            Seq::empty()
        }
    }

    /// The numbers of the offerings of asset `c`.
    pub open spec fn indexes_of(&self, c: CurrencyId) -> Seq<u32> {
        if self.indexs@.contains_key(c) { self.indexs@[c]@ } else { Seq::empty() }
    }

    /// Whether the unsold tokens of offering `(c, index)` were settled.
    pub open spec fn remain_settled(&self, c: CurrencyId, index: u32) -> bool {
        self.remain_amount_is_already_unserve@.contains_key(ico_key(c, index))
            && self.remain_amount_is_already_unserve@[ico_key(c, index)]
    }

    /// The holding of `who` in asset `c`.
    pub open spec fn account(&self, c: CurrencyId, who: AccountId) -> AccountData {
        self.ledger@[(c, who)]
    }

    /// A store with no offering, no request and no balance, at block zero.
    pub fn new(config: Config) -> (r: Self)
        ensures
            r.wf(),
            r.config == config,
            r.block_number == 0,
            r.pending_ico@.len() == 0,
            r.ico@ == Map::<u64, IcoInfo>::empty(),
            r.unrelease_assets@ == Map::<u64, Vec<UnRelease>>::empty(),
            r.request_release_info@.len() == 0,
            r.ico_locks@ == Map::<u128, Vec<IcoLock>>::empty(),
            r.indexs@ == Map::<u32, Vec<u32>>::empty(),
            r.remain_amount_is_already_unserve@ == Map::<u64, bool>::empty(),
            r.metadata@ == Map::<u32, AssetMetadata>::empty(),
            r.total_usdt == 0,
            r.total_num == 0,
            r.ico_rewards@ == Map::<u64, Balance>::empty(),
            r.ico_min_usdt_amount == 0,
            r.ico_max_usdt_amount == 100_000_000_000_000_000_000_000u128,
            r.events@.len() == 0,
            forall|c: CurrencyId, w: AccountId| #[trigger] r.account(c, w) == crate::ledger::empty_account(),
    {
        let ledger = Ledger::new();
        assert forall|c: CurrencyId, w: AccountId| #[trigger] ledger@[(c, w)] == crate::ledger::empty_account() by {
            assert(ledger.account(c, w) == crate::ledger::empty_account());
        }
        IcoModule {
            config,
            block_number: 0,
            ledger,
            metadata: HashMapWithView::new(),
            pending_ico: Vec::new(),
            ico: HashMapWithView::new(),
            unrelease_assets: HashMapWithView::new(),
            request_release_info: Vec::new(),
            ico_locks: HashMapWithView::new(),
            total_usdt: 0,
            total_num: 0,
            ico_rewards: HashMapWithView::new(),
            indexs: HashMapWithView::new(),
            remain_amount_is_already_unserve: HashMapWithView::new(),
            ico_min_usdt_amount: 0,
            ico_max_usdt_amount: 100_000_000_000_000_000_000_000u128,
            events: Vec::new(),
        }
    }
}


/// Which parts of the store a call may change.
pub struct Touched {
    pub ledger: bool,
    pub pending: bool,
    pub ico: bool,
    pub assets: bool,
    pub requests: bool,
    pub locks: bool,
    pub totals: bool,
    pub rewards: bool,
    pub indexs: bool,
    pub remain: bool,
    pub bounds: bool,
    pub events: bool,
}

/// No part of the store.
pub open spec fn touched_none() -> Touched {
    Touched {
        ledger: false,
        pending: false,
        ico: false,
        assets: false,
        requests: false,
        locks: false,
        totals: false,
        rewards: false,
        indexs: false,
        remain: false,
        bounds: false,
        events: false,
    }
}

/// What an offering's exchange gives for `amount`: project tokens for
/// exchange tokens when `is_main`, exchange tokens for project tokens
/// otherwise, at the offering's fixed ratio.
pub open spec fn spec_swap_amount(is_main: bool, amount: Balance, total_ico: Balance, total_exchange: Balance) -> int {
    if is_main {
        spec_mul_div(amount as int, total_ico as int, total_exchange as int)
    } else {
        spec_mul_div(amount as int, total_exchange as int, total_ico as int)
    }
}

/// Whether the exchange of `amount` is defined and fits in a `u128`.
pub open spec fn swap_ok(is_main: bool, amount: Balance, total_ico: Balance, total_exchange: Balance) -> bool {
    &&& if is_main { total_exchange != 0 } else { total_ico != 0 }
    &&& spec_swap_amount(is_main, amount, total_ico, total_exchange) <= u128::MAX
}

/// The book of an offering after a participation of `total` tokens worth
/// `total_usdt` (`is_start_join`), or after a release of `total` tokens.
pub open spec fn spec_updated_book(
    o: UnReleaseView,
    is_initiator: bool,
    total: Balance,
    total_usdt: Balance,
    is_start_join: bool,
    is_terminated: Option<bool>,
) -> UnReleaseView {
    let o1 = if is_start_join {
        UnReleaseView {
            tags: if !is_initiator { o.tags.push((total_usdt, sat_add(o.total_usdt, total_usdt))) } else { Seq::empty() },
            total_usdt: sat_add(o.total_usdt, total_usdt),
            total: sat_add(o.total, total),
            ..o
        }
    } else {
        UnReleaseView { released: sat_add(o.released, total), ..o }
    };
    if is_terminated == Some(true) { UnReleaseView { is_terminated: true, ..o1 } } else { o1 }
}

/// A new book of an offering.
pub open spec fn spec_new_book(
    is_initiator: bool,
    currency_id: CurrencyId,
    exchange_token: CurrencyId,
    index: u32,
    total: Balance,
    total_usdt: Balance,
) -> UnReleaseView {
    UnReleaseView {
        currency_id,
        index,
        unreleased_currency_id: if is_initiator { exchange_token } else { currency_id },
        total_usdt,
        tags: if !is_initiator { seq![(total_usdt, total_usdt)] } else { Seq::empty() },
        total,
        released: 0,
        is_terminated: false,
        is_already_get_reward: Some(false),
    }
}

/// An account's books after recording a participation or a release in
/// offering `(currency_id, index)`: the matching book is taken out (the last
/// book fills its place), updated and appended, or a new book is appended;
/// a fully released book whose reward was taken is dropped.
pub open spec fn spec_update_assets(
    s: Seq<UnReleaseView>,
    is_initiator: bool,
    currency_id: CurrencyId,
    exchange_token: CurrencyId,
    index: u32,
    total: Balance,
    total_usdt: Balance,
    is_start_join: bool,
    is_terminated: Option<bool>,
) -> Seq<UnReleaseView> {
    let (base, book) = match asset_pos(s, currency_id, index) {
        Some(p) => (seq_swap_remove(s, p), spec_updated_book(s[p], is_initiator, total, total_usdt, is_start_join, is_terminated)),
        None => (s, spec_new_book(is_initiator, currency_id, exchange_token, index, total, total_usdt)),
    };
    if book.released == book.total && book.is_already_get_reward == Some(true) {
        base
    } else {
        base.push(book)
    }
}

impl IcoModule {
    /// The store equals `o` outside the parts `t` names.
    pub open spec fn unchanged_except(&self, o: &Self, t: Touched) -> bool {
        &&& self.config == o.config
        &&& self.block_number == o.block_number
        &&& self.metadata@ == o.metadata@
        &&& !t.ledger ==> self.ledger@ == o.ledger@
        &&& !t.pending ==> self.pending_ico@ == o.pending_ico@
        &&& !t.ico ==> self.ico@ == o.ico@
        &&& !t.assets ==> self.unrelease_assets@ == o.unrelease_assets@
        &&& !t.requests ==> self.request_release_info@ == o.request_release_info@
        &&& !t.locks ==> self.ico_locks@ == o.ico_locks@
        &&& !t.totals ==> self.total_usdt == o.total_usdt && self.total_num == o.total_num
        &&& !t.rewards ==> self.ico_rewards@ == o.ico_rewards@
        &&& !t.indexs ==> self.indexs@ == o.indexs@
        &&& !t.remain ==> self.remain_amount_is_already_unserve@ == o.remain_amount_is_already_unserve@
        &&& !t.bounds ==> self.ico_min_usdt_amount == o.ico_min_usdt_amount
            && self.ico_max_usdt_amount == o.ico_max_usdt_amount
        &&& !t.events ==> self.events@ == o.events@
    }

    /// Exchanges `amount` at the offering's fixed ratio: exchange tokens into
    /// project tokens when `is_main`, the other way otherwise.
    pub fn get_swap_token_amount(is_main: bool, amount: Balance, ico: &IcoInfo) -> (r: Balance)
        requires
            swap_ok(is_main, amount, ico.total_ico_amount, ico.total_exchange_amount),
        ensures
            r == spec_swap_amount(is_main, amount, ico.total_ico_amount, ico.total_exchange_amount),
    {
        if is_main {
            mul_div(amount, ico.total_ico_amount, ico.total_exchange_amount)
        } else {
            mul_div(amount, ico.total_exchange_amount, ico.total_ico_amount)
        }
    }

    /// Records in the books of `who` a participation (`is_start_join`) or a
    /// release of `amount` in offering `ico`. A participant's payment, in
    /// exchange tokens, is first exchanged into the project tokens it buys;
    /// a release is recorded in the units it was made in (project tokens for
    /// a participant, exchange tokens for the initiator).
    pub fn update_user_unreleased_assets_info(
        &mut self,
        who: AccountId,
        ico: &IcoInfo,
        amount: Balance,
        total_usdt: Balance,
        is_start_join: bool,
        is_terminated: Option<bool>,
    )
        requires
            ico.index is Some,
            who != ico.initiator && is_start_join ==> swap_ok(true, amount, ico.total_ico_amount, ico.total_exchange_amount),
        ensures
            final(self).unchanged_except(old(self), Touched { assets: true, ..touched_none() }),
            final(self).assets_of(who) == spec_update_assets(
                old(self).assets_of(who),
                who == ico.initiator,
                ico.currency_id,
                ico.exchange_token,
                ico.index->0,
                if who == ico.initiator || !is_start_join { amount } else {
                    spec_swap_amount(true, amount, ico.total_ico_amount, ico.total_exchange_amount) as u128
                },
                total_usdt,
                is_start_join,
                is_terminated,
            ),
            final(self).assets_same_except(old(self), who),
            final(self).unrelease_assets@.contains_key(who),
    {
        let is_initiator = who == ico.initiator;
        let mut unreleased_currency_id = ico.currency_id;
        let mut total = amount;
        if is_initiator {
            unreleased_currency_id = ico.exchange_token;
        } else if is_start_join {
            total = Self::get_swap_token_amount(true, amount, ico);
        }
        let index = match ico.index {
            Some(i) => i,
            None => 0,
        };
        let ghost s = old(self).assets_of(who);
        let mut assets_info: Vec<UnRelease> = match self.unrelease_assets.remove(&who) {
            Some(v) => v,
            None => Vec::new(),
        };
        assert(assets_info@.map_values(|u: UnRelease| u@) =~= s);
        let found = find_asset(&assets_info, ico.currency_id, index);
        proof {
            lemma_asset_pos_facts(s, ico.currency_id, index);
            match asset_pos(s, ico.currency_id, index) {
                Some(p) => {
                    assert(s.len() == assets_info@.len());
                    assert(found == Some(p as usize));
                    assert(found->0 as int == p);
                },
                None => {},
            }
        }
        let new_info: UnRelease;
        let ghost mut exp_base: Seq<UnReleaseView> = s;
        let ghost mut exp_book: UnReleaseView = spec_new_book(is_initiator, ico.currency_id, ico.exchange_token, index, total, total_usdt);
        match found {
            Some(pos) => {
                let mut info = assets_info.swap_remove(pos);
                assert(assets_info@.map_values(|u: UnRelease| u@) =~= seq_swap_remove(s, pos as int));
                let ghost o = info@;
                assert(o == s[pos as int]);
                assert(asset_pos(s, ico.currency_id, index) == Some(pos as int));
                if is_start_join {
                    if !is_initiator {
                        let tag = info.total_usdt.saturating_add(total_usdt);
                        info.tags.push((total_usdt, tag));
                    } else {
                        info.tags = Vec::new();
                    }
                    info.total_usdt = info.total_usdt.saturating_add(total_usdt);
                    info.total = info.total.saturating_add(total);
                } else {
                    info.released = info.released.saturating_add(total);
                }
                match is_terminated {
                    Some(t) => {
                        if t {
                            info.is_terminated = true;
                        }
                    },
                    None => {},
                }
                assert(info@ == spec_updated_book(o, is_initiator, total, total_usdt, is_start_join, is_terminated));
                proof {
                    exp_base = seq_swap_remove(s, pos as int);
                    exp_book = spec_updated_book(s[pos as int], is_initiator, total, total_usdt, is_start_join, is_terminated);
                }
                new_info = info;
            },
            None => {
                assert(asset_pos(s, ico.currency_id, index) is None);
                let tags = if !is_initiator {
                    let mut t: Vec<(Balance, Balance)> = Vec::new();
                    t.push((total_usdt, total_usdt));
                    t
                } else {
                    Vec::new()
                };
                new_info = UnRelease {
                    currency_id: ico.currency_id,
                    index,
                    unreleased_currency_id,
                    total_usdt,
                    tags,
                    total,
                    released: 0,
                    is_terminated: false,
                    is_already_get_reward: Some(false),
                };
                assert(new_info.tags@ =~= (if !is_initiator { seq![(total_usdt, total_usdt)] } else { Seq::empty() }));
            },
        }
        let ghost base = assets_info@.map_values(|u: UnRelease| u@);
        proof {
            let cur_total: Balance = if who == ico.initiator || !is_start_join { amount } else {
                spec_swap_amount(true, amount, ico.total_ico_amount, ico.total_exchange_amount) as u128
            };
            assert(total == cur_total);
            assert(base == exp_base);
            assert(new_info@ == exp_book);
            assert(index == ico.index->0);
            assert((exp_base, exp_book) == (match asset_pos(s, ico.currency_id, index) {
                Some(p) => (seq_swap_remove(s, p), spec_updated_book(s[p], is_initiator, total, total_usdt, is_start_join, is_terminated)),
                None => (s, spec_new_book(is_initiator, ico.currency_id, ico.exchange_token, index, total, total_usdt)),
            }));
        }
        let dropped = match new_info.is_already_get_reward {
            Some(g) => g && new_info.released == new_info.total,
            None => false,
        };
        if !dropped {
            assets_info.push(new_info);
            assert(assets_info@.map_values(|u: UnRelease| u@) =~= base.push(new_info@));
        }
        let ghost fin = assets_info@.map_values(|u: UnRelease| u@);
        assert(fin == spec_update_assets(s, is_initiator, ico.currency_id, ico.exchange_token, index, total, total_usdt, is_start_join, is_terminated));
        self.unrelease_assets.insert(who, assets_info);
        assert(self.unrelease_assets@ =~= old(self).unrelease_assets@.insert(who, assets_info));
    }
}

/// What the store tells other modules about offerings.
pub trait IcoHandler<CurrencyId, MulBalanceOf, AccountId, DispathErr, BlockNumber> {
    /// Whether `get_total_ico_amount` is defined on offering `(currency_id, index)`.
    spec fn total_ico_amount_defined(&self, currency_id: CurrencyId, index: u32) -> bool;

    /// Whether `who` takes part in offering `(currency_id, index)`.
    fn is_project_ico_member(&self, currency_id: CurrencyId, index: u32, who: &AccountId) -> Result<bool, DispathErr>;

    /// How many project tokens `who` got from offering `(currency_id, index)`.
    fn get_user_total_amount(&self, currency_id: CurrencyId, index: u32, who: &AccountId) -> MulBalanceOf;

    /// How many project tokens all participants got from offering
    /// `(currency_id, index)`.
    fn get_total_ico_amount(&self, currency_id: CurrencyId, index: u32) -> Result<MulBalanceOf, DispathErr>
        requires
            self.total_ico_amount_defined(currency_id, index);
}

impl IcoModule {
    /// The book of offering `(c, index)` kept by `who`, if any.
    pub open spec fn book_of(&self, who: AccountId, c: CurrencyId, index: u32) -> Option<UnReleaseView> {
        match asset_pos(self.assets_of(who), c, index) {
            Some(p) => Some(self.assets_of(who)[p]),
            None => None,
        }
    }

    /// What `who` got from offering `(c, index)` and how much of it was
    /// released, or nothing.
    pub open spec fn spec_user_ico_amount(&self, c: CurrencyId, index: u32, who: AccountId) -> (Balance, Balance) {
        match self.book_of(who, c, index) {
            Some(b) => (b.total, b.released),
            None => (0, 0),
        }
    }

    /// Whether `who` holds a book of offering `(c, index)` kept in its
    /// project tokens, which the initiator's book is not.
    pub open spec fn spec_is_member(&self, who: AccountId, c: CurrencyId, index: u32) -> bool {
        exists|j: int| 0 <= j < self.assets_of(who).len() && {
            let b = #[trigger] self.assets_of(who)[j];
            b.currency_id == c && b.index == index && b.unreleased_currency_id == c
        }
    }

    /// The first open request about offering `(c, index)`, if any.
    pub open spec fn request_of(&self, c: CurrencyId, index: u32) -> Option<Release> {
        match release_pos(self.request_release_info@, c, index) {
            Some(p) => Some(self.request_release_info@[p]),
            None => None,
        }
    }

    /// The first pending offering of asset `c`, if any.
    pub open spec fn spec_is_pending_ico(&self, c: CurrencyId) -> bool {
        pending_pos(self.pending_ico@, c) is Some
    }

    /// The book of offering `(c, index)` kept by `who`, if any.
    pub fn get_unrelease_assets(&self, who: AccountId, c: CurrencyId, index: u32) -> (r: Option<&UnRelease>)
        ensures
            match r {
                Some(u) => self.book_of(who, c, index) == Some(u@),
                None => self.book_of(who, c, index) is None,
            },
    {
        match self.unrelease_assets.get(&who) {
            Some(v) => {
                let found = find_asset(v, c, index);
                proof { lemma_asset_pos_facts(v@.map_values(|u: UnRelease| u@), c, index); }
                match found {
                    Some(pos) => Some(&v[pos]),
                    None => None,
                }
            },
            None => {
                assert(self.assets_of(who) =~= Seq::<UnReleaseView>::empty());
                None
            },
        }
    }

    /// What `who` got from offering `(c, index)` and how much of it was
    /// released; zeros when `who` takes no part.
    pub fn get_user_ico_amount(&self, c: CurrencyId, index: u32, who: AccountId) -> (r: (Balance, Balance))
        ensures
            r == self.spec_user_ico_amount(c, index, who),
    {
        match self.get_unrelease_assets(who, c, index) {
            Some(info) => (info.total, info.released),
            None => (0, 0),
        }
    }

    /// Whether `who` takes part in offering `(c, index)` as a buyer.
    pub fn is_member(&self, who: AccountId, c: CurrencyId, index: u32) -> (r: bool)
        ensures
            r == self.spec_is_member(who, c, index),
    {
        match self.unrelease_assets.get(&who) {
            Some(v) => {
                let mut i: usize = 0;
                while i < v.len()
                    invariant
                        i <= v@.len(),
                        self.unrelease_assets@.contains_key(who),
                        *v == self.unrelease_assets@[who],
                        forall|j: int| 0 <= j < i ==> !({
                            let b = #[trigger] self.assets_of(who)[j];
                            b.currency_id == c && b.index == index && b.unreleased_currency_id == c
                        }),
                    decreases v@.len() - i,
                {
                    if v[i].currency_id == c && v[i].index == index && v[i].unreleased_currency_id == c {
                        assert(self.assets_of(who)[i as int] == v@[i as int]@);
                        return true;
                    }
                    assert(self.assets_of(who)[i as int] == v@[i as int]@);
                    i = i + 1;
                }
                false
            },
            None => false,
        }
    }

    /// The first open request about offering `(c, index)`.
    pub fn get_request_release_info(&self, c: CurrencyId, index: u32) -> (r: Option<Release>)
        ensures
            r == self.request_of(c, index),
    {
        let found = find_release(&self.request_release_info, c, index);
        proof { lemma_release_pos_facts(self.request_release_info@, c, index); }
        match found {
            Some(pos) => Some(self.request_release_info[pos]),
            None => None,
        }
    }

    /// Whether an offering of asset `c` waits for approval.
    pub fn is_pending_ico(&self, c: CurrencyId) -> (r: bool)
        ensures
            r == self.spec_is_pending_ico(c),
    {
        find_pending(&self.pending_ico, c).is_some()
    }

    /// Offering `(c, index)`, if it runs.
    pub fn get_ico(&self, c: CurrencyId, index: u32) -> (r: Option<&IcoInfo>)
        ensures
            match r {
                Some(v) => self.ico_of(c, index) == Some(*v),
                None => self.ico_of(c, index) is None,
            },
    {
        let k = ico_key_of(c, index);
        self.ico.get(&k)
    }
}

/// The number of project tokens all participants of offering `ico` got, as
/// counted from what its initiator raised.
pub open spec fn spec_total_ico_amount(m: &IcoModule, ico: IcoInfo, c: CurrencyId, index: u32) -> int {
    spec_mul_div(
        ico.total_ico_amount as int,
        m.spec_user_ico_amount(c, index, ico.initiator).0 as int,
        ico.total_exchange_amount as int,
    )
}

impl IcoHandler<CurrencyId, Balance, AccountId, DispatchError, BlockNumber> for IcoModule {
    open spec fn total_ico_amount_defined(&self, currency_id: CurrencyId, index: u32) -> bool {
        match self.ico_of(currency_id, index) {
            Some(ico) => ico.total_exchange_amount != 0
                && spec_total_ico_amount(self, ico, currency_id, index) <= u128::MAX,
            None => true,
        }
    }

    fn is_project_ico_member(&self, currency_id: CurrencyId, index: u32, who: &AccountId) -> (r: Result<bool, DispatchError>)
        ensures
            r == (if self.ico_of(currency_id, index) is None {
                Err(DispatchError::Module(Error::IcoNotExists))
            } else {
                Ok(self.spec_is_member(*who, currency_id, index))
            }),
    {
        match self.get_ico(currency_id, index) {
            None => Err(DispatchError::Module(Error::IcoNotExists)),
            Some(_) => Ok(self.is_member(*who, currency_id, index)),
        }
    }

    fn get_user_total_amount(&self, currency_id: CurrencyId, index: u32, who: &AccountId) -> (r: Balance)
        ensures
            r == self.spec_user_ico_amount(currency_id, index, *who).0,
    {
        self.get_user_ico_amount(currency_id, index, *who).0
    }

    fn get_total_ico_amount(&self, currency_id: CurrencyId, index: u32) -> (r: Result<Balance, DispatchError>)
        ensures
            r == (match self.ico_of(currency_id, index) {
                None => Err(DispatchError::Module(Error::IcoNotExists)),
                Some(ico) => Ok(spec_total_ico_amount(self, ico, currency_id, index) as u128),
            }),
    {
        match self.get_ico(currency_id, index) {
            None => Err(DispatchError::Module(Error::IcoNotExists)),
            Some(ico) => {
                let raised = self.get_user_ico_amount(currency_id, index, ico.initiator).0;
                Ok(mul_div(ico.total_ico_amount, raised, ico.total_exchange_amount))
            },
        }
    }
}

/// The price of every exchange token in US dollars with eighteen decimals.
pub const USDT: u128 = 1_000_000_000_000_000_000u128;

/// The US dollar value of `amount` of an asset with `decimals` decimals,
/// before the native currency's multiplier.
pub open spec fn spec_usdt_value(decimals: u8, amount: Balance) -> int {
    spec_mul_div(USDT as int, amount as int, spec_pow10_saturating(decimals as nat))
}

/// Whether the US dollar value of `amount` can be computed without overflow.
pub open spec fn convert_usdt_ok(is_native: bool, numerator: u32, decimals: u8, amount: Balance) -> bool {
    &&& spec_usdt_value(decimals, amount) <= u128::MAX
    &&& is_native ==> spec_usdt_value(decimals, amount) * numerator <= u128::MAX
}

/// The US dollar value of `amount`; paying with the native currency is
/// worth `numerator / denominator` times more.
pub open spec fn spec_convert_usdt(is_native: bool, numerator: u32, denominator: u32, decimals: u8, amount: Balance) -> Result<Balance, DispatchError> {
    let usdt = spec_usdt_value(decimals, amount);
    if !is_native {
        Ok(usdt as u128)
    } else if denominator == 0 {
        Err(DispatchError::Module(Error::DenominatorIsZero))
    } else {
        Ok(((usdt * numerator) / (denominator as int)) as u128)
    }
}

/// Whether `origin` passes `rule`.
pub open spec fn origin_allowed(rule: &OriginRule, origin: Origin) -> bool {
    match origin {
        Origin::Root => rule.allow_root,
        Origin::Signed(who) => rule.members@.contains(who),
        Origin::Unsigned => false,
    }
}

/// The checks of a new offering, in the order they are made, with the first
/// failing one's refusal.
pub open spec fn spec_initiate_checks(m: &IcoModule, info: &IcoParameters, who: AccountId) -> Result<bool, DispatchError> {
    if info.user_ico_max_count == 0 {
        Err(DispatchError::Module(Error::MaxCountIsZero))
    } else if info.currency_id == m.config.native_currency_id {
        Err(DispatchError::Module(Error::NativeCurrencyId))
    } else if info.exchange_token == info.currency_id {
        Err(DispatchError::Module(Error::TokenShouldBeDifferent))
    } else if info.total_exchange_amount == 0 || info.total_ico_amount == 0 {
        Err(DispatchError::Module(Error::AmountIsZero))
    } else if !(info.total_issuance >= info.total_circulation && info.total_circulation >= info.total_ico_amount) {
        Err(DispatchError::Module(Error::AmountErr))
    } else if !(info.user_min_amount >= m.ico_min_usdt_amount && info.user_min_amount <= info.user_max_amount
        && info.user_max_amount <= m.ico_max_usdt_amount) {
        Err(DispatchError::Module(Error::MinOrMaxIcoAmountSetErr))
    } else if info.ico_duration == 0 {
        Err(DispatchError::Module(Error::DurationIsZero))
    } else if info.lock_proportion@ > 0 && !(info.unlock_duration > 0 && info.per_duration_unlock_amount > 0) {
        Err(DispatchError::Module(Error::LockParaErr))
    } else if m.spec_is_pending_ico(info.currency_id) {
        Err(DispatchError::Module(Error::IsPendingIco))
    } else if spec_can_withdraw(m.account(info.currency_id, who), info.total_ico_amount) is Err {
        Err(DispatchError::Module(Error::AmountTooLow))
    } else {
        Ok(true)
    }
}

impl IcoModule {
    /// The price of asset `c` in US dollars with eighteen decimals.
    pub fn get_token_price(c: CurrencyId) -> (r: Balance)
        ensures
            r == USDT,
    {
        USDT
    }

    /// The current block height.
    pub fn now(&self) -> (r: BlockNumber)
        ensures
            r == self.block_number,
    {
        self.block_number
    }

    /// The nationality of `who`: everyone counts as Chinese.
    pub fn get_uesr_nation(who: AccountId) -> (r: Option<Countries>)
        ensures
            r == Some(Countries::China),
    {
        Some(Countries::China)
    }

    /// Whether `who` passed the know-your-customer check: nobody has.
    pub fn is_already_kyc(who: AccountId) -> (r: bool)
        ensures
            !r,
    {
        false
    }

    /// Whether `origin` passes `rule`.
    pub fn ensure_origin(rule: &OriginRule, origin: Origin) -> (r: bool)
        ensures
            r == origin_allowed(rule, origin),
    {
        match origin {
            Origin::Root => rule.allow_root,
            Origin::Signed(who) => {
                let mut i: usize = 0;
                while i < rule.members.len()
                    invariant
                        i <= rule.members@.len(),
                        origin == Origin::Signed(who),
                        forall|j: int| 0 <= j < i ==> rule.members@[j] != who,
                    decreases rule.members@.len() - i,
                {
                    if rule.members[i] == who {
                        assert(rule.members@[i as int] == who);
                        return true;
                    }
                    i = i + 1;
                }
                false
            },
            Origin::Unsigned => false,
        }
    }

    /// The US dollar value of `amount` of exchange token `c`.
    pub fn exchange_token_convert_usdt(&self, c: CurrencyId, decimals: u8, amount: Balance) -> (r: Result<Balance, DispatchError>)
        requires
            convert_usdt_ok(c == self.config.native_currency_id, self.config.native_multiple.numerator, decimals, amount),
        ensures
            r == spec_convert_usdt(
                c == self.config.native_currency_id,
                self.config.native_multiple.numerator,
                self.config.native_multiple.denominator,
                decimals,
                amount,
            ),
    {
        let price = Self::get_token_price(c);
        let decimals_amount = pow10_saturating(decimals);
        proof {
            vstd::arithmetic::power::lemma_pow_positive(10, decimals as nat);
        }
        let mut usdt = mul_div(price, amount, decimals_amount);
        if c == self.config.native_currency_id {
            let num = self.config.native_multiple.numerator as u128;
            let den = self.config.native_multiple.denominator as u128;
            let product = usdt * num;
            match product.checked_div(den) {
                Some(v) => { usdt = v; },
                None => { return Err(DispatchError::Module(Error::DenominatorIsZero)); },
            }
        }
        Ok(usdt)
    }

    /// Whether offering `ico` has ended: it was terminated, or its duration
    /// has passed.
    pub fn is_ico_expire(&self, ico: &IcoInfo) -> (r: bool)
        requires
            !ico.is_terminated ==> ico.start_time is Some && ico.start_time->0 + ico.ico_duration <= u64::MAX,
        ensures
            r == (ico.is_terminated || ico.start_time->0 + ico.ico_duration < self.block_number),
    {
        if ico.is_terminated {
            return true;
        }
        match ico.start_time {
            Some(t) => t + ico.ico_duration < self.now(),
            None => true,
        }
    }

    /// Whether `who` may reserve from its free balance of `c` at all: for
    /// the native currency the free balance must not be under the frozen
    /// floor, for other assets nothing of it may be frozen.
    pub fn is_can_reserve(&self, c: CurrencyId, who: AccountId) -> (r: Result<bool, DispatchError>)
        ensures
            r == spec_is_can_reserve(self.ledger@, self.config.native_currency_id, c, who),
    {
        if c == self.config.native_currency_id {
            let free_amount = self.ledger.free_balance(c, who);
            match self.ledger.ensure_new_balance_allowed(c, who, free_amount) {
                Ok(()) => {},
                Err(e) => { return Err(DispatchError::Ledger(e)); },
            }
        } else {
            let free_amount = self.ledger.free_balance(c, who);
            match self.ledger.ensure_can_withdraw(c, who, free_amount) {
                Ok(()) => {},
                Err(e) => { return Err(DispatchError::Ledger(e)); },
            }
        }
        Ok(true)
    }

    /// Whether `who`, not being excluded by nationality, may join offering
    /// `(c, index)`: an offering that demands the know-your-customer check
    /// admits nobody, since nobody passed it.
    pub fn is_in_exclude_nation(&self, who: AccountId, c: CurrencyId, index: u32) -> (r: Result<bool, DispatchError>)
        ensures
            r == (match self.ico_of(c, index) {
                None => Err(DispatchError::Module(Error::IcoNotExists)),
                Some(ico) => Ok(ico.is_must_kyc),
            }),
    {
        let ico = match self.get_ico(c, index) {
            Some(v) => v,
            None => { return Err(DispatchError::Module(Error::IcoNotExists)); },
        };
        if ico.is_must_kyc {
            if Self::is_already_kyc(who) {
                match Self::get_uesr_nation(who) {
                    None => Ok(true),
                    Some(nation) => {
                        let mut i: usize = 0;
                        let mut excluded = false;
                        while i < ico.exclude_nation.len()
                            invariant
                                i <= ico.exclude_nation@.len(),
                            decreases ico.exclude_nation@.len() - i,
                        {
                            if ico.exclude_nation[i] == nation {
                                excluded = true;
                                break;
                            }
                            i = i + 1;
                        }
                        Ok(excluded)
                    },
                }
            } else {
                Ok(true)
            }
        } else {
            Ok(false)
        }
    }

    /// The checks made before a new offering is accepted.
    pub fn is_can_initiate_ico(&self, info: &IcoParameters, who: AccountId) -> (r: Result<bool, DispatchError>)
        ensures
            r == spec_initiate_checks(self, info, who),
    {
        if info.user_ico_max_count == 0 {
            return Err(DispatchError::Module(Error::MaxCountIsZero));
        }
        if info.currency_id == self.config.native_currency_id {
            return Err(DispatchError::Module(Error::NativeCurrencyId));
        }
        if info.exchange_token == info.currency_id {
            return Err(DispatchError::Module(Error::TokenShouldBeDifferent));
        }
        if info.total_exchange_amount == 0 || info.total_ico_amount == 0 {
            return Err(DispatchError::Module(Error::AmountIsZero));
        }
        if !(info.total_issuance >= info.total_circulation && info.total_circulation >= info.total_ico_amount) {
            return Err(DispatchError::Module(Error::AmountErr));
        }
        if !(info.user_min_amount >= self.ico_min_usdt_amount && info.user_min_amount <= info.user_max_amount
            && info.user_max_amount <= self.ico_max_usdt_amount) {
            return Err(DispatchError::Module(Error::MinOrMaxIcoAmountSetErr));
        }
        if info.ico_duration == 0 {
            return Err(DispatchError::Module(Error::DurationIsZero));
        }
        if info.lock_proportion.deconstruct() > 0 {
            if !(info.unlock_duration > 0 && info.per_duration_unlock_amount > 0) {
                return Err(DispatchError::Module(Error::LockParaErr));
            }
        }
        if self.is_pending_ico(info.currency_id) {
            return Err(DispatchError::Module(Error::IsPendingIco));
        }
        if !self.ledger.can_reserve(info.currency_id, who, info.total_ico_amount) {
            return Err(DispatchError::Module(Error::AmountTooLow));
        }
        Ok(true)
    }
}

/// Whether an account may reserve from its free balance of `c` at all.
pub open spec fn spec_is_can_reserve(m: Map<(CurrencyId, AccountId), AccountData>, native: CurrencyId, c: CurrencyId, who: AccountId) -> Result<bool, DispatchError> {
    if c == native {
        if m[(c, who)].free >= m[(c, who)].frozen {
            Ok(true)
        } else {
            Err(DispatchError::Ledger(LedgerError::LiquidityRestrictions))
        }
    } else {
        match spec_can_withdraw(m[(c, who)], m[(c, who)].free) {
            Ok(_) => Ok(true),
            Err(e) => Err(DispatchError::Ledger(e)),
        }
    }
}

/// The ledger and the outcome after `who` pays `amount` of the exchange
/// token of offering `ico` to its initiator, who reserves it and hands
/// `who` the matching project tokens, still reserved.
pub open spec fn spec_swap(
    m: Map<(CurrencyId, AccountId), AccountData>,
    native: CurrencyId,
    who: AccountId,
    amount: Balance,
    ico: IcoInfo,
) -> (Map<(CurrencyId, AccountId), AccountData>, Result<Balance, DispatchError>) {
    let p = spec_swap_amount(true, amount, ico.total_ico_amount, ico.total_exchange_amount) as u128;
    let init = ico.initiator;
    if spec_is_can_reserve(m, native, ico.exchange_token, init) is Err {
        (m, Err(spec_is_can_reserve(m, native, ico.exchange_token, init)->Err_0))
    } else if m[(ico.currency_id, init)].reserved < p {
        (m, Err(DispatchError::Module(Error::ReservedBalanceNotEnough)))
    } else if spec_transfer_result(m, ico.exchange_token, who, init, amount) is Err {
        (m, Err(DispatchError::Ledger(spec_transfer_result(m, ico.exchange_token, who, init, amount)->Err_0)))
    } else {
        let m1 = spec_transfer(m, ico.exchange_token, who, init, amount);
        if spec_can_withdraw(m1[(ico.exchange_token, init)], amount) is Err {
            (m1, Err(DispatchError::Ledger(spec_can_withdraw(m1[(ico.exchange_token, init)], amount)->Err_0)))
        } else {
            let m2 = spec_reserve(m1, ico.exchange_token, init, amount);
            if spec_repatriate_result(m2, ico.currency_id, init, who, p) is Err {
                (m2, Err(DispatchError::Ledger(spec_repatriate_result(m2, ico.currency_id, init, who, p)->Err_0)))
            } else {
                (spec_repatriate(m2, ico.currency_id, init, who, p, BalanceStatus::Reserved), Ok(p))
            }
        }
    }
}

impl IcoModule {
    /// Moves `amount` of `who`'s free balance of `c` to its reserved balance.
    pub fn reserve(&mut self, c: CurrencyId, who: AccountId, amount: Balance) -> (r: Result<(), DispatchError>)
        requires
            old(self).wf(),
        ensures
            final(self).wf(),
            final(self).unchanged_except(old(self), Touched { ledger: true, ..touched_none() }),
            r == (match spec_can_withdraw(old(self).account(c, who), amount) {
                Ok(_) => Ok(()),
                Err(e) => Err(DispatchError::Ledger(e)),
            }),
            r is Ok ==> final(self).ledger@ == spec_reserve(old(self).ledger@, c, who, amount),
            r is Err ==> final(self).ledger@ == old(self).ledger@,
    {
        match self.ledger.reserve(c, who, amount) {
            Ok(()) => Ok(()),
            Err(e) => Err(DispatchError::Ledger(e)),
        }
    }

    /// Moves up to `amount` of `who`'s reserved balance of `c` back to its
    /// free balance.
    pub fn unreserve(&mut self, c: CurrencyId, who: AccountId, amount: Balance)
        requires
            old(self).wf(),
        ensures
            final(self).wf(),
            final(self).unchanged_except(old(self), Touched { ledger: true, ..touched_none() }),
            final(self).ledger@ == spec_unreserve(old(self).ledger@, c, who, amount),
    {
        let _ = self.ledger.unreserve(c, who, amount);
    }

    /// Moves `amount` of free balance of `c` from `who` to `dest`.
    pub fn transfer(&mut self, c: CurrencyId, who: AccountId, dest: AccountId, amount: Balance) -> (r: Result<(), DispatchError>)
        requires
            old(self).wf(),
        ensures
            final(self).wf(),
            final(self).unchanged_except(old(self), Touched { ledger: true, ..touched_none() }),
            r == (match spec_transfer_result(old(self).ledger@, c, who, dest, amount) {
                Ok(_) => Ok(()),
                Err(e) => Err(DispatchError::Ledger(e)),
            }),
            r is Ok ==> final(self).ledger@ == spec_transfer(old(self).ledger@, c, who, dest, amount),
            r is Err ==> final(self).ledger@ == old(self).ledger@,
    {
        match self.ledger.transfer(c, who, dest, amount) {
            Ok(()) => Ok(()),
            Err(e) => Err(DispatchError::Ledger(e)),
        }
    }

    /// `who` pays `amount` of the offering's exchange token to the
    /// initiator, who reserves it; the matching project tokens move from the
    /// initiator's reserve to `who`'s reserve. Returns the project tokens.
    pub fn swap(&mut self, who: AccountId, amount: Balance, ico: &IcoInfo) -> (r: Result<Balance, DispatchError>)
        requires
            old(self).wf(),
            swap_ok(true, amount, ico.total_ico_amount, ico.total_exchange_amount),
        ensures
            final(self).wf(),
            final(self).unchanged_except(old(self), Touched { ledger: true, ..touched_none() }),
            (final(self).ledger@, r) == spec_swap(old(self).ledger@, old(self).config.native_currency_id, who, amount, *ico),
    {
        let project_token_id = ico.currency_id;
        let exchange_token_id = ico.exchange_token;
        let initiator = ico.initiator;
        let this_time_project_token_amount = Self::get_swap_token_amount(true, amount, ico);
        match self.is_can_reserve(exchange_token_id, initiator) {
            Ok(_) => {},
            Err(e) => { return Err(e); },
        }
        if self.ledger.reserved_balance(project_token_id, initiator) < this_time_project_token_amount {
            return Err(DispatchError::Module(Error::ReservedBalanceNotEnough));
        }
        match self.transfer(exchange_token_id, who, initiator, amount) {
            Ok(()) => {},
            Err(e) => { return Err(e); },
        }
        match self.reserve(exchange_token_id, initiator, amount) {
            Ok(()) => {},
            Err(e) => { return Err(e); },
        }
        match self.ledger.repatriate_reserved(project_token_id, initiator, who, this_time_project_token_amount, BalanceStatus::Reserved) {
            Ok(_) => {},
            Err(e) => { return Err(DispatchError::Ledger(e)); },
        }
        Ok(this_time_project_token_amount)
    }
}

/// `a * b`, or `u128::MAX` when the product does not fit.
pub open spec fn sat_mul(a: int, b: int) -> int {
    if a * b > u128::MAX { u128::MAX as int } else { a * b }
}

/// What a time lock frees at block `now`, and the lock afterwards. A lock
/// without a period frees all that is still locked (and keeps its record);
/// otherwise one slice is freed per elapsed period, up to the whole lock.
pub open spec fn lock_step(now: BlockNumber, l: IcoLock) -> (Balance, IcoLock) {
    if l.unlock_duration == 0 {
        (sat_sub(l.total_amount as int, l.unlock_amount as int) as u128, l)
    } else {
        let time = sat_sub(now as int, l.start_block as int);
        let num = time / (l.unlock_duration as int);
        let n32 = if num > u32::MAX { u32::MAX as int } else { num };
        let unlocked = sat_mul(n32, l.per_duration_unlock_amount as int);
        let total_unlock = if unlocked <= l.total_amount { unlocked } else { l.total_amount as int };
        (sat_sub(total_unlock, l.unlock_amount as int) as u128, IcoLock { unlock_amount: total_unlock as u128, ..l })
    }
}

/// What a list of time locks frees at block `now`, in all.
pub open spec fn locks_released(now: BlockNumber, s: Seq<IcoLock>) -> int
    decreases s.len(),
{
    if s.len() == 0 { 0 } else { locks_released(now, s.drop_last()) + lock_step(now, s.last()).0 }
}

/// The time locks that still hold something.
pub open spec fn locks_kept(s: Seq<IcoLock>) -> Seq<IcoLock>
    decreases s.len(),
{
    if s.len() == 0 {
        s
    } else if s.last().total_amount != s.last().unlock_amount {
        locks_kept(s.drop_last()).push(s.last())
    } else {
        locks_kept(s.drop_last())
    }
}

/// Whether an open request has expired at block `now`.
pub open spec fn request_expired(r: Release, now: BlockNumber, expire: BlockNumber) -> bool {
    !(r.request_time + expire > now)
}

/// The open requests that have not expired.
pub open spec fn requests_kept(s: Seq<Release>, now: BlockNumber, expire: BlockNumber) -> Seq<Release>
    decreases s.len(),
{
    if s.len() == 0 {
        s
    } else if !request_expired(s.last(), now, expire) {
        requests_kept(s.drop_last(), now, expire).push(s.last())
    } else {
        requests_kept(s.drop_last(), now, expire)
    }
}

/// The ledger after the pledges of all expired requests are slashed, in
/// order.
pub open spec fn slash_expired(m: Map<(CurrencyId, AccountId), AccountData>, native: CurrencyId, s: Seq<Release>, now: BlockNumber, expire: BlockNumber) -> Map<(CurrencyId, AccountId), AccountData>
    decreases s.len(),
{
    if s.len() == 0 {
        m
    } else {
        let m0 = slash_expired(m, native, s.drop_last(), now, expire);
        if request_expired(s.last(), now, expire) {
            spec_slash_reserved(m0, native, s.last().who, s.last().pledge)
        } else {
            m0
        }
    }
}

/// Unreserving twice from one holding is unreserving the sum once.
pub proof fn lemma_unreserve_twice(m: Map<(CurrencyId, AccountId), AccountData>, c: CurrencyId, who: AccountId, a: Balance, b: Balance)
    requires
        crate::ledger::account_fits(m[(c, who)]),
        a + b <= u128::MAX,
    ensures
        spec_unreserve(spec_unreserve(m, c, who, a), c, who, b) == spec_unreserve(m, c, who, (a + b) as u128),
{
    let m2 = spec_unreserve(spec_unreserve(m, c, who, a), c, who, b);
    let m3 = spec_unreserve(m, c, who, (a + b) as u128);
    assert(m2 =~= m3);
}

proof fn lemma_unreserve_zero(m: Map<(CurrencyId, AccountId), AccountData>, c: CurrencyId, who: AccountId)
    requires
        m.dom().contains((c, who)),
        crate::ledger::account_fits(m[(c, who)]),
    ensures
        spec_unreserve(m, c, who, 0) == m,
{
    assert(spec_unreserve(m, c, who, 0) =~= m);
}

fn copy_locks(v: &Vec<IcoLock>) -> (r: Vec<IcoLock>)
    ensures
        r@ == v@,
{
    let mut r: Vec<IcoLock> = Vec::new();
    let mut i: usize = 0;
    while i < v.len()
        invariant
            i <= v@.len(),
            r@ == v@.take(i as int),
        decreases v@.len() - i,
    {
        r.push(v[i]);
        assert(r@ =~= v@.take(i as int + 1));
        i = i + 1;
    }
    assert(v@.take(i as int) =~= v@);
    r
}

impl IcoModule {
    /// Frees at the current block what the time locks `locks` of `who` in
    /// asset `c` let go, updating them in place. Returns the amount freed
    /// and the locks that still hold something.
    pub fn unlock_asset(&mut self, who: AccountId, c: CurrencyId, locks: &mut Vec<IcoLock>) -> (r: (Balance, Vec<IcoLock>))
        requires
            old(self).wf(),
            locks_released(old(self).block_number, old(locks)@) <= u128::MAX,
        ensures
            final(self).wf(),
            final(self).unchanged_except(old(self), Touched { ledger: true, ..touched_none() }),
            r.0 == locks_released(old(self).block_number, old(locks)@),
            final(locks)@ == old(locks)@.map_values(|l: IcoLock| lock_step(old(self).block_number, l).1),
            r.1@ == locks_kept(final(locks)@),
            final(self).ledger@ == spec_unreserve(old(self).ledger@, c, who, r.0),
    {
        let now = self.now();
        let ghost l0 = locks@;
        let ghost m0 = self.ledger@;
        let mut total: Balance = 0;
        let mut i: usize = 0;
        proof {
            assert(m0.dom().contains((c, who)));
            assert(crate::ledger::account_fits(m0[(c, who)]));
            lemma_unreserve_zero(m0, c, who);
        }
        while i < locks.len()
            invariant
                self.wf(),
                old(self).ledger.wf(),
                m0 == old(self).ledger@,
                self.unchanged_except(old(self), Touched { ledger: true, ..touched_none() }),
                now == old(self).block_number,
                i <= locks@.len(),
                locks@.len() == l0.len(),
                locks_released(now, l0) <= u128::MAX,
                total == locks_released(now, l0.take(i as int)),
                forall|j: int| 0 <= j < i ==> locks@[j] == #[trigger] lock_step(now, l0[j]).1,
                forall|j: int| i <= j < l0.len() ==> locks@[j] == l0[j],
                self.ledger@ == spec_unreserve(m0, c, who, total),
            decreases l0.len() - i,
        {
            proof {
                assert(l0.take(i as int + 1).drop_last() =~= l0.take(i as int));
                lemma_locks_released_prefix(now, l0, i as int + 1);
                assert(crate::ledger::account_fits(m0[(c, who)]));
            }
            let l = locks[i];
            let time = now.saturating_sub(l.start_block);
            let amount: Balance;
            if l.unlock_duration == 0 {
                amount = l.total_amount.saturating_sub(l.unlock_amount);
            } else {
                let num = time / l.unlock_duration;
                let n32: u32 = if num > u32::MAX as u64 { u32::MAX } else { num as u32 };
                let unlocked = match (n32 as u128).checked_mul(l.per_duration_unlock_amount) {
                    Some(v) => v,
                    None => u128::MAX,
                };
                let total_unlock = if unlocked <= l.total_amount { unlocked } else { l.total_amount };
                amount = total_unlock.saturating_sub(l.unlock_amount);
                locks.set(i, IcoLock { unlock_amount: total_unlock, ..l });
            }
            assert(amount == lock_step(now, l0[i as int]).0);
            self.unreserve(c, who, amount);
            proof { lemma_unreserve_twice(m0, c, who, total, amount); }
            total = total + amount;
            i = i + 1;
        }
        proof {
            assert(l0.take(i as int) =~= l0);
            assert(locks@ =~= l0.map_values(|l: IcoLock| lock_step(now, l).1));
        }
        let ghost stepped = locks@;
        let mut kept: Vec<IcoLock> = Vec::new();
        let mut k: usize = 0;
        while k < locks.len()
            invariant
                k <= locks@.len(),
                locks@ == stepped,
                kept@ == locks_kept(stepped.take(k as int)),
            decreases stepped.len() - k,
        {
            assert(stepped.take(k as int + 1).drop_last() =~= stepped.take(k as int));
            let l = locks[k];
            if l.total_amount != l.unlock_amount {
                kept.push(l);
            }
            k = k + 1;
        }
        assert(stepped.take(k as int) =~= stepped);
        (total, kept)
    }

    /// Drops the open requests: with `is_all`, every expired request, whose
    /// pledge is slashed; otherwise the first request about offering
    /// `(currency_id, index)`, if `currency_id` is given.
    pub fn remove_request_release_info(&mut self, currency_id: Option<CurrencyId>, index: u32, is_all: bool)
        requires
            old(self).wf(),
            is_all ==> forall|j: int| 0 <= j < old(self).request_release_info@.len() ==>
                (#[trigger] old(self).request_release_info@[j]).request_time + old(self).config.request_expire <= u64::MAX,
        ensures
            final(self).wf(),
            final(self).unchanged_except(old(self), Touched { ledger: true, requests: true, ..touched_none() }),
            is_all ==> final(self).request_release_info@ == requests_kept(old(self).request_release_info@, old(self).block_number, old(self).config.request_expire),
            is_all ==> final(self).ledger@ == slash_expired(old(self).ledger@, old(self).config.native_currency_id, old(self).request_release_info@, old(self).block_number, old(self).config.request_expire),
            !is_all ==> final(self).ledger@ == old(self).ledger@,
            !is_all ==> final(self).request_release_info@ == (match currency_id {
                Some(c) => match release_pos(old(self).request_release_info@, c, index) {
                    Some(p) => seq_swap_remove(old(self).request_release_info@, p),
                    None => old(self).request_release_info@,
                },
                None => old(self).request_release_info@,
            }),
    {
        let now = self.now();
        let expire = self.config.request_expire;
        let native = self.config.native_currency_id;
        if is_all {
            let ghost s = self.request_release_info@;
            let ghost m0 = self.ledger@;
            let mut kept: Vec<Release> = Vec::new();
            let mut i: usize = 0;
            while i < self.request_release_info.len()
                invariant
                    self.wf(),
                    self.unchanged_except(old(self), Touched { ledger: true, ..touched_none() }),
                    s == self.request_release_info@,
                    now == old(self).block_number,
                    expire == old(self).config.request_expire,
                    native == old(self).config.native_currency_id,
                    i <= s.len(),
                    forall|j: int| 0 <= j < s.len() ==> (#[trigger] s[j]).request_time + expire <= u64::MAX,
                    kept@ == requests_kept(s.take(i as int), now, expire),
                    self.ledger@ == slash_expired(m0, native, s.take(i as int), now, expire),
                decreases s.len() - i,
            {
                assert(s.take(i as int + 1).drop_last() =~= s.take(i as int));
                let h = self.request_release_info[i];
                if h.request_time + expire > now {
                    kept.push(h);
                } else {
                    let _ = self.ledger.slash_reserved(native, h.who, h.pledge);
                }
                i = i + 1;
            }
            assert(s.take(i as int) =~= s);
            self.request_release_info = kept;
        } else {
            match currency_id {
                Some(c) => {
                    let found = find_release(&self.request_release_info, c, index);
                    proof { lemma_release_pos_facts(self.request_release_info@, c, index); }
                    match found {
                        Some(pos) => {
                            let _ = self.request_release_info.swap_remove(pos);
                        },
                        None => {},
                    }
                },
                None => {},
            }
        }
    }

    /// The reward of offering `ico`. The first time, the offering's raised
    /// value is added to the historical total and the reward it earns there
    /// is recorded; afterwards the recorded reward is returned, so that every
    /// offering is counted once and all its participants share one reward.
    pub fn calculate_total_reward(&mut self, ico: &IcoInfo) -> (r: Balance)
        requires
            ico.index is Some,
            old(self).ico_rewards@.contains_key(ico_key(ico.currency_id, ico.index->0))
                ==> old(self).ico_rewards@[ico_key(ico.currency_id, ico.index->0)]
                    <= crate::reward::reward_cap(ico.total_usdt as int, old(self).config.ico_total_reward as int),
            !old(self).ico_rewards@.contains_key(ico_key(ico.currency_id, ico.index->0)) ==> {
                &&& crate::reward::spec_history_after(old(self).total_usdt as int, ico.total_usdt as int) < 32 * crate::reward::CHANGE_REWARD
                &&& crate::reward::spec_total_reward(old(self).total_usdt as int, ico.total_usdt as int,
                    old(self).config.ico_total_reward as int) <= u128::MAX
            },
        ensures
            r == spec_project_reward(old(self), *ico),
            r <= crate::reward::reward_cap(ico.total_usdt as int, old(self).config.ico_total_reward as int),
            old(self).ico_rewards@.contains_key(ico_key(ico.currency_id, ico.index->0))
                ==> final(self).unchanged_except(old(self), touched_none()),
            !old(self).ico_rewards@.contains_key(ico_key(ico.currency_id, ico.index->0)) ==> {
                &&& final(self).unchanged_except(old(self), Touched { totals: true, rewards: true, ..touched_none() })
                &&& final(self).total_num == old(self).total_num
                &&& final(self).total_usdt == crate::reward::spec_history_after(old(self).total_usdt as int, ico.total_usdt as int)
                &&& final(self).ico_rewards@ == old(self).ico_rewards@.insert(ico_key(ico.currency_id, ico.index->0), r)
            },
    {
        let index = match ico.index { Some(i) => i, None => 0 };
        let k = ico_key_of(ico.currency_id, index);
        match self.ico_rewards.get(&k) {
            Some(v) => { return *v; },
            None => {},
        }
        proof {
            crate::reward::lemma_total_reward_bounded(self.total_usdt as int, ico.total_usdt as int,
                self.config.ico_total_reward as int);
        }
        let (total, reward) = crate::reward::total_reward_of(self.total_usdt, ico.total_usdt, self.config.ico_total_reward);
        self.total_usdt = total;
        self.ico_rewards.insert(k, reward);
        reward
    }
}

/// The reward of offering `ico`: the one recorded when it was first
/// counted, or the one it earns when added to the historical total now.
pub open spec fn spec_project_reward(m: &IcoModule, ico: IcoInfo) -> int {
    let k = ico_key(ico.currency_id, ico.index->0);
    if m.ico_rewards@.contains_key(k) {
        m.ico_rewards@[k] as int
    } else {
        crate::reward::spec_total_reward(m.total_usdt as int, ico.total_usdt as int, m.config.ico_total_reward as int)
    }
}

proof fn lemma_locks_released_prefix(now: BlockNumber, s: Seq<IcoLock>, k: int)
    requires
        0 <= k <= s.len(),
    ensures
        0 <= locks_released(now, s.take(k)) <= locks_released(now, s),
    decreases s.len(),
{
    if s.len() > 0 {
        if k == s.len() {
            assert(s.take(k) =~= s);
            lemma_locks_released_prefix(now, s.drop_last(), k - 1);
            assert(s.drop_last().take(k - 1) =~= s.drop_last());
        } else {
            lemma_locks_released_prefix(now, s.drop_last(), k);
            assert(s.drop_last().take(k) =~= s.take(k));
        }
    } else {
        assert(s.take(k) =~= s);
    }
}

/// The time lock that keeps the locked share of a release.
pub open spec fn spec_new_lock(now: BlockNumber, ico: IcoInfo, keep: Balance) -> IcoLock {
    IcoLock {
        start_block: now,
        index: ico.index->0,
        total_amount: keep,
        unlock_amount: 0,
        unlock_duration: ico.unlock_duration,
        per_duration_unlock_amount: ico.per_duration_unlock_amount,
    }
}

/// The ledger after a release of `amount` of offering `ico` to `user`.
pub open spec fn ledger_after_release(m: Map<(CurrencyId, AccountId), AccountData>, user: AccountId, ico: IcoInfo, amount: Balance) -> Map<(CurrencyId, AccountId), AccountData> {
    if user == ico.initiator {
        spec_unreserve(m, ico.exchange_token, user, amount)
    } else {
        let keep = spec_percent_of(ico.lock_proportion@ as int, amount as int);
        if amount - keep > 0 {
            spec_unreserve(m, ico.currency_id, user, (amount - keep) as u128)
        } else {
            m
        }
    }
}

/// The ledger after settling what `user` still holds, `remain` project
/// tokens, of terminated offering `ico`, which raised `raised`.
pub open spec fn ledger_after_termination(m: Map<(CurrencyId, AccountId), AccountData>, user: AccountId, remain: Balance, ico: IcoInfo, min_parts: nat, raised: Balance) -> Map<(CurrencyId, AccountId), AccountData> {
    let exch = spec_swap_amount(false, remain, ico.total_ico_amount, ico.total_exchange_amount) as u128;
    let m1 = spec_repatriate(m, ico.exchange_token, ico.initiator, user, exch, BalanceStatus::Free);
    if spec_percent_of(min_parts as int, ico.total_exchange_amount as int) > raised {
        spec_slash_reserved(m1, ico.currency_id, user, remain)
    } else {
        spec_repatriate(m1, ico.currency_id, user, ico.initiator, remain, BalanceStatus::Free)
    }
}

/// The project tokens offering `ico` did not sell, when it raised `raised`.
pub open spec fn unsold_amount(ico: IcoInfo, raised: Balance) -> Balance {
    spec_swap_amount(true, sat_sub(ico.total_exchange_amount as int, raised as int) as u128,
        ico.total_ico_amount, ico.total_exchange_amount) as u128
}

/// The ledger after settling the unsold project tokens of offering `ico`,
/// which raised `raised`.
pub open spec fn ledger_after_unsold(m: Map<(CurrencyId, AccountId), AccountData>, ico: IcoInfo, min_parts: nat, raised: Balance) -> Map<(CurrencyId, AccountId), AccountData> {
    if spec_percent_of(min_parts as int, ico.total_exchange_amount as int) > raised {
        spec_slash_reserved(m, ico.currency_id, ico.initiator, unsold_amount(ico, raised))
    } else {
        spec_unreserve(m, ico.currency_id, ico.initiator, unsold_amount(ico, raised))
    }
}

impl IcoModule {
    /// Books of accounts other than `who` are the same in both stores.
    pub open spec fn assets_same_except(&self, o: &Self, who: AccountId) -> bool {
        forall|w: AccountId| w != who ==> #[trigger] self.unrelease_assets@.contains_key(w)
            == o.unrelease_assets@.contains_key(w)
            && (self.unrelease_assets@.contains_key(w) ==> self.unrelease_assets@[w] == o.unrelease_assets@[w])
    }

    /// Time locks other than those of `who` in `c` are the same in both
    /// stores.
    pub open spec fn locks_same_except(&self, o: &Self, who: AccountId, c: CurrencyId) -> bool {
        forall|w: AccountId, c2: CurrencyId| (w, c2) != (who, c) ==> #[trigger] self.locks_of(w, c2) == o.locks_of(w, c2)
    }

    fn push_lock(&mut self, who: AccountId, c: CurrencyId, lock: IcoLock)
        requires
            old(self).wf(),
        ensures
            final(self).wf(),
            final(self).unchanged_except(old(self), Touched { locks: true, ..touched_none() }),
            final(self).locks_of(who, c) == old(self).locks_of(who, c).push(lock),
            final(self).locks_same_except(old(self), who, c),
    {
        let k = lock_key_of(who, c);
        let mut v = match self.ico_locks.remove(&k) {
            Some(v) => v,
            None => Vec::new(),
        };
        assert(v@ == old(self).locks_of(who, c));
        v.push(lock);
        self.ico_locks.insert(k, v);
        assert(self.ico_locks@ =~= old(self).ico_locks@.insert(k, v));
        assert forall|w: AccountId, c2: CurrencyId| (w, c2) != (who, c) implies #[trigger] self.locks_of(w, c2) == old(self).locks_of(w, c2) by {
            if lock_key(w, c2) == k {
                lemma_lock_key_injective(w, c2, who, c);
            }
        }
    }

    /// Releases `amount` of offering `ico` to `user`: the initiator gets the
    /// exchange tokens back from its reserve; a buyer gets the unlocked share
    /// of its project tokens back from its reserve, and the locked share
    /// becomes a time lock.
    pub fn common_unreleased_user_amount(&mut self, user: AccountId, ico: &IcoInfo, amount: Balance)
        requires
            old(self).wf(),
            ico.index is Some,
        ensures
            final(self).wf(),
            final(self).unchanged_except(old(self), Touched { ledger: true, assets: true, locks: true, events: true, ..touched_none() }),
            final(self).ledger@ == ledger_after_release(old(self).ledger@, user, *ico, amount),
            user == ico.initiator || spec_percent_of(ico.lock_proportion@ as int, amount as int) == 0
                ==> final(self).ico_locks@ == old(self).ico_locks@,
            user != ico.initiator && spec_percent_of(ico.lock_proportion@ as int, amount as int) > 0 ==> {
                &&& final(self).locks_of(user, ico.currency_id) == old(self).locks_of(user, ico.currency_id).push(
                    spec_new_lock(old(self).block_number, *ico, spec_percent_of(ico.lock_proportion@ as int, amount as int) as u128))
                &&& final(self).locks_same_except(old(self), user, ico.currency_id)
            },
            final(self).assets_of(user) == spec_update_assets(
                old(self).assets_of(user),
                user == ico.initiator,
                ico.currency_id,
                ico.exchange_token,
                ico.index->0,
                amount,
                0,
                false,
                None,
            ),
            final(self).assets_same_except(old(self), user),
            final(self).events@ == old(self).events@.push(Event::UserReleaseIcoAmount(ico.currency_id, ico.index->0, amount)),
    {
        let index = match ico.index { Some(i) => i, None => 0 };
        if user == ico.initiator {
            self.unreserve(ico.exchange_token, ico.initiator, amount);
        } else {
            let parts = ico.lock_proportion.deconstruct();
            let user_keep_lock_amount = percent_of(parts, amount);
            let user_unlock_amount = amount - user_keep_lock_amount;
            if user_unlock_amount > 0 {
                self.unreserve(ico.currency_id, user, user_unlock_amount);
            }
            if user_keep_lock_amount > 0 {
                let lock = IcoLock {
                    start_block: self.now(),
                    index,
                    total_amount: user_keep_lock_amount,
                    unlock_amount: 0,
                    unlock_duration: ico.unlock_duration,
                    per_duration_unlock_amount: ico.per_duration_unlock_amount,
                };
                self.push_lock(user, ico.currency_id, lock);
            }
        }
        let ghost mid = *self;
        self.update_user_unreleased_assets_info(user, ico, amount, 0, false, None);
        proof {
            crate::laws::lemma_books_stay_unique(mid.assets_of(user), user == ico.initiator, ico.currency_id,
                ico.exchange_token, ico.index->0, amount, 0, false, None);
            self.lemma_books_unique_after(&mid, user, user);
        }
        self.events.push(Event::UserReleaseIcoAmount(ico.currency_id, index, amount));
        assert(self.ico_locks@ == mid.ico_locks@);
        assert(mid.unrelease_assets@ == old(self).unrelease_assets@);
        assert forall|w: AccountId, c2: CurrencyId| #![all_triggers] true implies self.locks_of(w, c2) == mid.locks_of(w, c2) by {}
    }

    /// Settles what `user` still holds of terminated offering `ico`: the
    /// exchange tokens worth the unreleased rest go back from the
    /// initiator's reserve to `user`, and the unreleased project tokens are
    /// slashed when the offering raised less than its minimum share, or go
    /// to the initiator otherwise.
    pub fn terminated_unreleased_user_amount(&mut self, user: AccountId, total: Balance, should_released: Balance, ico: &IcoInfo)
        requires
            old(self).wf(),
            ico.index is Some,
            swap_ok(false, sat_sub(total as int, should_released as int) as u128, ico.total_ico_amount, ico.total_exchange_amount),
        ensures
            final(self).wf(),
            final(self).unchanged_except(old(self), Touched { ledger: true, assets: true, events: true, ..touched_none() }),
            final(self).ledger@ == ledger_after_termination(old(self).ledger@, user,
                sat_sub(total as int, should_released as int) as u128, *ico, old(self).config.min_proportion@,
                old(self).spec_user_ico_amount(ico.currency_id, ico.index->0, ico.initiator).0),
            final(self).assets_of(user) == spec_update_assets(
                old(self).assets_of(user),
                user == ico.initiator,
                ico.currency_id,
                ico.exchange_token,
                ico.index->0,
                sat_sub(total as int, should_released as int) as u128,
                0,
                false,
                Some(true),
            ),
            final(self).assets_same_except(old(self), user),
            final(self).events@ == old(self).events@.push(Event::TerminatedGiveBackAmount(
                user, ico.currency_id, ico.index->0, sat_sub(total as int, should_released as int) as u128)),
    {
        let index = match ico.index { Some(i) => i, None => 0 };
        let should_remain_amount = total.saturating_sub(should_released);
        let exchange_token_amount = Self::get_swap_token_amount(false, should_remain_amount, ico);
        let _ = self.ledger.repatriate_reserved(ico.exchange_token, ico.initiator, user, exchange_token_amount, BalanceStatus::Free);
        let (project_total_amount, _) = self.get_user_ico_amount(ico.currency_id, index, ico.initiator);
        let min_parts = self.config.min_proportion.deconstruct();
        if percent_of(min_parts, ico.total_exchange_amount) > project_total_amount {
            let _ = self.ledger.slash_reserved(ico.currency_id, user, should_remain_amount);
        } else {
            let _ = self.ledger.repatriate_reserved(ico.currency_id, user, ico.initiator, should_remain_amount, BalanceStatus::Free);
        }
        let ghost mid = *self;
        self.update_user_unreleased_assets_info(user, ico, should_remain_amount, 0, false, Some(true));
        assert(mid.unrelease_assets@ == old(self).unrelease_assets@);
        proof {
            crate::laws::lemma_books_stay_unique(mid.assets_of(user), user == ico.initiator, ico.currency_id,
                ico.exchange_token, ico.index->0, should_remain_amount, 0, false, Some(true));
            self.lemma_books_unique_after(&mid, user, user);
        }
        self.events.push(Event::TerminatedGiveBackAmount(user, ico.currency_id, index, should_remain_amount));
    }

    /// Settles the project tokens that offering `ico` did not sell: they are
    /// slashed from the initiator's reserve when the offering raised less
    /// than its minimum share, or released to the initiator otherwise; the
    /// offering is marked as settled.
    pub fn unreserved_initiator_not_ico_amount(&mut self, ico: &IcoInfo)
        requires
            old(self).wf(),
            ico.index is Some,
            swap_ok(true, sat_sub(ico.total_exchange_amount as int,
                old(self).spec_user_ico_amount(ico.currency_id, ico.index->0, ico.initiator).0 as int) as u128,
                ico.total_ico_amount, ico.total_exchange_amount),
        ensures
            final(self).wf(),
            final(self).unchanged_except(old(self), Touched { ledger: true, remain: true, events: true, ..touched_none() }),
            ({
                let raised = old(self).spec_user_ico_amount(ico.currency_id, ico.index->0, ico.initiator).0;
                &&& final(self).ledger@ == ledger_after_unsold(old(self).ledger@, *ico, old(self).config.min_proportion@, raised)
                &&& final(self).events@ == old(self).events@.push(Event::UnreservedInitiatorRemainPledgeAmount(
                    ico.currency_id, ico.index->0, unsold_amount(*ico, raised)))
            }),
            final(self).remain_amount_is_already_unserve@ == old(self).remain_amount_is_already_unserve@.insert(ico_key(ico.currency_id, ico.index->0), true),
    {
        let index = match ico.index { Some(i) => i, None => 0 };
        let (project_total_amount, _) = self.get_user_ico_amount(ico.currency_id, index, ico.initiator);
        let unico_amount = ico.total_exchange_amount.saturating_sub(project_total_amount);
        let should_slash_project_token = Self::get_swap_token_amount(true, unico_amount, ico);
        let min_parts = self.config.min_proportion.deconstruct();
        if percent_of(min_parts, ico.total_exchange_amount) > project_total_amount {
            let _ = self.ledger.slash_reserved(ico.currency_id, ico.initiator, should_slash_project_token);
        } else {
            self.unreserve(ico.currency_id, ico.initiator, should_slash_project_token);
        }
        let k = ico_key_of(ico.currency_id, index);
        self.remain_amount_is_already_unserve.insert(k, true);
        self.events.push(Event::UnreservedInitiatorRemainPledgeAmount(ico.currency_id, index, should_slash_project_token));
    }

    /// Records a participation of `who` in offering `ico` with `amount` of
    /// exchange tokens worth `total_usdt`, in the books of `who` and of the
    /// initiator.
    pub fn insert_ico_assets_info(&mut self, who: AccountId, ico: &IcoInfo, amount: Balance, total_usdt: Balance)
        requires
            ico.index is Some,
            who != ico.initiator ==> swap_ok(true, amount, ico.total_ico_amount, ico.total_exchange_amount),
        ensures
            final(self).unchanged_except(old(self), Touched { assets: true, ..touched_none() }),
            who != ico.initiator ==> final(self).assets_of(who) == spec_update_assets(old(self).assets_of(who), false,
                ico.currency_id, ico.exchange_token, ico.index->0,
                spec_swap_amount(true, amount, ico.total_ico_amount, ico.total_exchange_amount) as u128,
                total_usdt, true, None),
            who != ico.initiator ==> final(self).assets_of(ico.initiator) == spec_update_assets(
                old(self).assets_of(ico.initiator), true, ico.currency_id, ico.exchange_token, ico.index->0, amount,
                total_usdt, true, None),
            who == ico.initiator ==> final(self).assets_of(who) == spec_update_assets(
                spec_update_assets(old(self).assets_of(who), true, ico.currency_id, ico.exchange_token, ico.index->0,
                    amount, total_usdt, true, None),
                true, ico.currency_id, ico.exchange_token, ico.index->0, amount, total_usdt, true, None),
            forall|w: AccountId| w != who && w != ico.initiator ==> #[trigger] final(self).unrelease_assets@.contains_key(w)
                == old(self).unrelease_assets@.contains_key(w)
                && (final(self).unrelease_assets@.contains_key(w) ==> final(self).unrelease_assets@[w] == old(self).unrelease_assets@[w]),
    {
        self.update_user_unreleased_assets_info(who, ico, amount, total_usdt, true, None);
        let ghost mid = *self;
        self.update_user_unreleased_assets_info(ico.initiator, ico, amount, total_usdt, true, None);
        if who != ico.initiator {
            assert(mid.assets_of(ico.initiator) == old(self).assets_of(ico.initiator));
            assert(self.assets_of(who) == mid.assets_of(who));
        }
        assert forall|w: AccountId| w != who && w != ico.initiator implies #[trigger] self.unrelease_assets@.contains_key(w)
                == old(self).unrelease_assets@.contains_key(w)
                && (self.unrelease_assets@.contains_key(w) ==> self.unrelease_assets@[w] == old(self).unrelease_assets@[w]) by {
            assert(mid.unrelease_assets@.contains_key(w) == old(self).unrelease_assets@.contains_key(w));
            assert(self.unrelease_assets@.contains_key(w) == mid.unrelease_assets@.contains_key(w));
        }
    }
}

/// The account that signed `origin`, if it is signed.
pub open spec fn signer(origin: Origin) -> Option<AccountId> {
    match origin {
        Origin::Signed(who) => Some(who),
        _ => None,
    }
}

impl IcoModule {
    /// The account that signed `origin`.
    pub fn ensure_signed(origin: Origin) -> (r: Result<AccountId, DispatchError>)
        ensures
            r == (match origin {
                Origin::Signed(who) => Ok::<AccountId, DispatchError>(who),
                _ => Err(DispatchError::BadOrigin),
            }),
    {
        match origin {
            Origin::Signed(who) => Ok(who),
            _ => Err(DispatchError::BadOrigin),
        }
    }

    /// Whether `origin` is the root origin.
    pub fn ensure_root(origin: Origin) -> (r: Result<(), DispatchError>)
        ensures
            r == (if origin == Origin::Root { Ok::<(), DispatchError>(()) } else { Err(DispatchError::BadOrigin) }),
    {
        match origin {
            Origin::Root => Ok(()),
            _ => Err(DispatchError::BadOrigin),
        }
    }

    /// Takes offering `(c, index)` out of the store.
    fn take_ico(&mut self, c: CurrencyId, index: u32) -> (r: Option<IcoInfo>)
        requires
            old(self).wf(),
        ensures
            final(self).unchanged_except(old(self), Touched { ico: true, ..touched_none() }),
            r == old(self).ico_of(c, index),
            final(self).ico@ == old(self).ico@.remove(ico_key(c, index)),
            r is Some ==> ico_entry_wf(ico_key(c, index), r->0),
    {
        let k = ico_key_of(c, index);
        self.ico.remove(&k)
    }

    /// Puts offering `ico` back into the store as offering `(c, index)`.
    fn put_ico(&mut self, c: CurrencyId, index: u32, ico: IcoInfo)
        ensures
            final(self).unchanged_except(old(self), Touched { ico: true, ..touched_none() }),
            final(self).ico@ == old(self).ico@.insert(ico_key(c, index), ico),
    {
        let k = ico_key_of(c, index);
        self.ico.insert(k, ico);
    }

    proof fn lemma_wf_put_ico(&self, before: &Self, c: CurrencyId, index: u32, ico: IcoInfo)
        requires
            before.wf(),
            self.ledger.wf(),
            self.pending_ico@ == before.pending_ico@,
            self.config == before.config,
            self.total_num == before.total_num,
            self.ico_rewards@ == before.ico_rewards@,
            forall|w: AccountId| #[trigger] crate::laws::books_unique(assets_in(self.unrelease_assets@, w)),
            ico_entry_wf(ico_key(c, index), ico),
            ico.index->0 <= before.total_num,
            before.ico_rewards@.contains_key(ico_key(c, index))
                ==> before.ico_rewards@[ico_key(c, index)] <= crate::reward::reward_cap(ico.total_usdt as int,
                    before.config.ico_total_reward as int),
            self.ico@ == before.ico@.insert(ico_key(c, index), ico),
        ensures
            self.wf(),
    {
        assert forall|k: u64| #[trigger] self.ico@.contains_key(k) implies ico_entry_wf(k, self.ico@[k]) by {
            if k != ico_key(c, index) {
                assert(before.ico@.contains_key(k));
            }
        }
        assert forall|k: u64| #[trigger] self.ico@.contains_key(k) implies self.ico@[k].index->0 <= self.total_num by {
            if k != ico_key(c, index) {
                assert(before.ico@.contains_key(k));
            }
        }
        assert forall|k: u64| #[trigger] self.ico_rewards@.contains_key(k) && self.ico@.contains_key(k)
            implies self.ico_rewards@[k] <= crate::reward::reward_cap(self.ico@[k].total_usdt as int,
                self.config.ico_total_reward as int) by {
            if k != ico_key(c, index) {
                assert(before.ico@.contains_key(k));
            }
        }
    }

    /// Governance sets the US dollar range every participation must stay in.
    pub fn set_system_ico_amount_bound(&mut self, origin: Origin, min_amount: Balance, max_amount: Balance) -> (r: Result<(), DispatchError>)
        requires
            old(self).wf(),
        ensures
            final(self).wf(),
            r == (if origin != Origin::Root {
                Err(DispatchError::BadOrigin)
            } else if !(min_amount <= max_amount && max_amount != 0) {
                Err(DispatchError::Module(Error::MinOrMaxIcoAmountSetErr))
            } else {
                Ok(())
            }),
            r is Err ==> final(self).unchanged_except(old(self), touched_none()),
            r is Ok ==> {
                &&& final(self).unchanged_except(old(self), Touched { bounds: true, events: true, ..touched_none() })
                &&& final(self).ico_min_usdt_amount == min_amount
                &&& final(self).ico_max_usdt_amount == max_amount
                &&& final(self).events@ == old(self).events@.push(Event::SetSystemIcoAmountBound(min_amount, max_amount))
            },
    {
        match Self::ensure_root(origin) {
            Ok(()) => {},
            Err(e) => { return Err(e); },
        }
        if !(min_amount <= max_amount && max_amount != 0) {
            return Err(DispatchError::Module(Error::MinOrMaxIcoAmountSetErr));
        }
        self.ico_min_usdt_amount = min_amount;
        self.ico_max_usdt_amount = max_amount;
        self.events.push(Event::SetSystemIcoAmountBound(min_amount, max_amount));
        Ok(())
    }

    /// The initiator of offering `(c, index)` sets the US dollar range a
    /// participation must stay in, within the system's range.
    pub fn initiator_set_ico_amount_bound(&mut self, origin: Origin, c: CurrencyId, index: u32, min_amount: Balance, max_amount: Balance) -> (r: Result<(), DispatchError>)
        requires
            old(self).wf(),
        ensures
            final(self).wf(),
            r == (match signer(origin) {
                None => Err(DispatchError::BadOrigin),
                Some(who) => match old(self).ico_of(c, index) {
                    None => Err(DispatchError::Module(Error::IcoNotExists)),
                    Some(ico) => if ico.initiator != who {
                        Err(DispatchError::Module(Error::NotInitiator))
                    } else if !(min_amount >= old(self).ico_min_usdt_amount && min_amount <= max_amount
                        && max_amount <= old(self).ico_max_usdt_amount) {
                        Err(DispatchError::Module(Error::MinOrMaxIcoAmountSetErr))
                    } else {
                        Ok(())
                    },
                },
            }),
            r is Err ==> final(self).unchanged_except(old(self), touched_none()),
            r is Ok ==> {
                &&& final(self).unchanged_except(old(self), Touched { ico: true, events: true, ..touched_none() })
                &&& final(self).ico@ == old(self).ico@.insert(ico_key(c, index), IcoInfo {
                    user_min_amount: min_amount,
                    user_max_amount: max_amount,
                    ..old(self).ico_of(c, index)->0
                })
                &&& final(self).events@ == old(self).events@.push(Event::InitiatorSetIcoAmountBound(c, index, min_amount, max_amount))
            },
    {
        let user = match Self::ensure_signed(origin) {
            Ok(u) => u,
            Err(e) => { return Err(e); },
        };
        match self.get_ico(c, index) {
            None => { return Err(DispatchError::Module(Error::IcoNotExists)); },
            Some(ico) => {
                if ico.initiator != user {
                    return Err(DispatchError::Module(Error::NotInitiator));
                }
            },
        }
        if !(min_amount >= self.ico_min_usdt_amount && min_amount <= max_amount && max_amount <= self.ico_max_usdt_amount) {
            return Err(DispatchError::Module(Error::MinOrMaxIcoAmountSetErr));
        }
        let mut ico = match self.take_ico(c, index) {
            Some(v) => v,
            None => { return Err(DispatchError::Module(Error::IcoNotExists)); },
        };
        ico.user_min_amount = min_amount;
        ico.user_max_amount = max_amount;
        self.put_ico(c, index, ico);
        assert(self.ico@ =~= old(self).ico@.insert(ico_key(c, index), ico));
        proof { self.lemma_wf_put_ico(old(self), c, index, ico); }
        self.events.push(Event::InitiatorSetIcoAmountBound(c, index, min_amount, max_amount));
        Ok(())
    }

    /// The initiator of offering `(c, index)` sets how many times one
    /// account may join it.
    pub fn initiator_set_ico_max_count(&mut self, origin: Origin, c: CurrencyId, index: u32, max_count: u8) -> (r: Result<(), DispatchError>)
        requires
            old(self).wf(),
        ensures
            final(self).wf(),
            r == (match signer(origin) {
                None => Err(DispatchError::BadOrigin),
                Some(who) => match old(self).ico_of(c, index) {
                    None => Err(DispatchError::Module(Error::IcoNotExists)),
                    Some(ico) => if ico.initiator != who {
                        Err(DispatchError::Module(Error::NotInitiator))
                    } else if !(ico.user_ico_max_count != max_count && max_count != 0) {
                        Err(DispatchError::Module(Error::MaxCountErr))
                    } else {
                        Ok(())
                    },
                },
            }),
            r is Err ==> final(self).unchanged_except(old(self), touched_none()),
            r is Ok ==> {
                &&& final(self).unchanged_except(old(self), Touched { ico: true, events: true, ..touched_none() })
                &&& final(self).ico@ == old(self).ico@.insert(ico_key(c, index), IcoInfo {
                    user_ico_max_count: max_count,
                    ..old(self).ico_of(c, index)->0
                })
                &&& final(self).events@ == old(self).events@.push(Event::SetIcoMaxCount(c, index, max_count))
            },
    {
        let user = match Self::ensure_signed(origin) {
            Ok(u) => u,
            Err(e) => { return Err(e); },
        };
        match self.get_ico(c, index) {
            None => { return Err(DispatchError::Module(Error::IcoNotExists)); },
            Some(ico) => {
                if ico.initiator != user {
                    return Err(DispatchError::Module(Error::NotInitiator));
                }
                if !(ico.user_ico_max_count != max_count && max_count != 0) {
                    return Err(DispatchError::Module(Error::MaxCountErr));
                }
            },
        }
        let mut ico = match self.take_ico(c, index) {
            Some(v) => v,
            None => { return Err(DispatchError::Module(Error::IcoNotExists)); },
        };
        ico.user_ico_max_count = max_count;
        self.put_ico(c, index, ico);
        assert(self.ico@ =~= old(self).ico@.insert(ico_key(c, index), ico));
        proof { self.lemma_wf_put_ico(old(self), c, index, ico); }
        self.events.push(Event::SetIcoMaxCount(c, index, max_count));
        Ok(())
    }

    /// Governance terminates offering `(c, index)`.
    pub fn terminate_ico(&mut self, origin: Origin, c: CurrencyId, index: u32) -> (r: Result<(), DispatchError>)
        requires
            old(self).wf(),
        ensures
            final(self).wf(),
            r == (if !origin_allowed(&old(self).config.terminate_ico_origin, origin) {
                Err(DispatchError::Module(Error::BadOrigin))
            } else {
                match old(self).ico_of(c, index) {
                    None => Err(DispatchError::Module(Error::IcoNotExists)),
                    Some(ico) => if ico.is_terminated {
                        Err(DispatchError::Module(Error::Icoterminated))
                    } else {
                        Ok(())
                    },
                }
            }),
            r is Err ==> final(self).unchanged_except(old(self), touched_none()),
            r is Ok ==> {
                &&& final(self).unchanged_except(old(self), Touched { ico: true, events: true, ..touched_none() })
                &&& final(self).ico@ == old(self).ico@.insert(ico_key(c, index), IcoInfo {
                    is_terminated: true,
                    ..old(self).ico_of(c, index)->0
                })
                &&& final(self).events@ == old(self).events@.push(Event::TerminateIco(c, index))
            },
    {
        if !Self::ensure_origin(&self.config.terminate_ico_origin, origin) {
            return Err(DispatchError::Module(Error::BadOrigin));
        }
        match self.get_ico(c, index) {
            None => { return Err(DispatchError::Module(Error::IcoNotExists)); },
            Some(ico) => {
                if ico.is_terminated {
                    return Err(DispatchError::Module(Error::Icoterminated));
                }
            },
        }
        let mut ico = match self.take_ico(c, index) {
            Some(v) => v,
            None => { return Err(DispatchError::Module(Error::IcoNotExists)); },
        };
        ico.is_terminated = true;
        self.put_ico(c, index, ico);
        assert(self.ico@ =~= old(self).ico@.insert(ico_key(c, index), ico));
        proof { self.lemma_wf_put_ico(old(self), c, index, ico); }
        self.events.push(Event::TerminateIco(c, index));
        Ok(())
    }
}

impl IcoModule {
    /// The initiator of offering `(c, index)` asks to release `percent` of
    /// what it raised, putting up the request pledge in the native currency.
    pub fn request_release(&mut self, origin: Origin, c: CurrencyId, index: u32, percent: Percent) -> (r: Result<(), DispatchError>)
        requires
            old(self).wf(),
        ensures
            final(self).wf(),
            r == (match signer(origin) {
                None => Err(DispatchError::BadOrigin),
                Some(who) => match old(self).ico_of(c, index) {
                    None => Err(DispatchError::Module(Error::IcoNotExists)),
                    Some(ico) => if !(ico.already_released_proportion@ < percent@) {
                        Err(DispatchError::Module(Error::ProportionTooLow))
                    } else if who != ico.initiator {
                        Err(DispatchError::Module(Error::NotInitiator))
                    } else if ico.is_terminated {
                        Err(DispatchError::Module(Error::Icoterminated))
                    } else if old(self).request_of(c, index) is Some {
                        Err(DispatchError::Module(Error::AlreadyRequest))
                    } else {
                        match spec_can_withdraw(old(self).account(old(self).config.native_currency_id, who), old(self).config.request_pledge) {
                            Ok(_) => Ok(()),
                            Err(e) => Err(DispatchError::Ledger(e)),
                        }
                    },
                },
            }),
            r is Err ==> final(self).unchanged_except(old(self), touched_none()),
            r is Ok ==> {
                let who = signer(origin)->0;
                &&& final(self).unchanged_except(old(self), Touched { ledger: true, requests: true, events: true, ..touched_none() })
                &&& final(self).ledger@ == spec_reserve(old(self).ledger@, old(self).config.native_currency_id, who, old(self).config.request_pledge)
                &&& final(self).request_release_info@ == old(self).request_release_info@.push(Release {
                    who,
                    currency_id: c,
                    index,
                    request_time: old(self).block_number,
                    percent,
                    pledge: old(self).config.request_pledge,
                })
                &&& final(self).events@ == old(self).events@.push(Event::RequestRelease(c, index, percent))
            },
    {
        let initiator = match Self::ensure_signed(origin) {
            Ok(u) => u,
            Err(e) => { return Err(e); },
        };
        match self.get_ico(c, index) {
            None => { return Err(DispatchError::Module(Error::IcoNotExists)); },
            Some(ico) => {
                if !(ico.already_released_proportion.deconstruct() < percent.deconstruct()) {
                    return Err(DispatchError::Module(Error::ProportionTooLow));
                }
                if initiator != ico.initiator {
                    return Err(DispatchError::Module(Error::NotInitiator));
                }
                if ico.is_terminated {
                    return Err(DispatchError::Module(Error::Icoterminated));
                }
            },
        }
        if self.get_request_release_info(c, index).is_some() {
            return Err(DispatchError::Module(Error::AlreadyRequest));
        }
        let native = self.config.native_currency_id;
        let pledge = self.config.request_pledge;
        match self.reserve(native, initiator, pledge) {
            Ok(()) => {},
            Err(e) => { return Err(e); },
        }
        let now = self.now();
        self.request_release_info.push(Release {
            who: initiator,
            currency_id: c,
            index,
            request_time: now,
            percent,
            pledge,
        });
        self.events.push(Event::RequestRelease(c, index, percent));
        Ok(())
    }

    /// The initiator of offering `(c, index)` withdraws its open request:
    /// half of the pledge (rounded down) is slashed, the rest unreserved.
    pub fn cancel_request(&mut self, origin: Origin, c: CurrencyId, index: u32) -> (r: Result<(), DispatchError>)
        requires
            old(self).wf(),
        ensures
            final(self).wf(),
            r == (match signer(origin) {
                None => Err(DispatchError::BadOrigin),
                Some(who) => match old(self).ico_of(c, index) {
                    None => Err(DispatchError::Module(Error::IcoNotExists)),
                    Some(ico) => if who != ico.initiator {
                        Err(DispatchError::Module(Error::NotInitiator))
                    } else if old(self).request_of(c, index) is None {
                        Err(DispatchError::Module(Error::RequestNotExists))
                    } else {
                        Ok(())
                    },
                },
            }),
            r is Err ==> final(self).unchanged_except(old(self), touched_none()),
            r is Ok ==> {
                let who = signer(origin)->0;
                let pledge = old(self).request_of(c, index)->0.pledge;
                let native = old(self).config.native_currency_id;
                &&& final(self).unchanged_except(old(self), Touched { ledger: true, requests: true, events: true, ..touched_none() })
                &&& final(self).ledger@ == spec_unreserve(
                    spec_slash_reserved(old(self).ledger@, native, who, pledge / 2), native, who, (pledge - pledge / 2) as u128)
                &&& final(self).request_release_info@ == seq_swap_remove(old(self).request_release_info@,
                    release_pos(old(self).request_release_info@, c, index)->0)
                &&& final(self).events@ == old(self).events@.push(Event::CancelRequest(c, index))
            },
    {
        let initiator = match Self::ensure_signed(origin) {
            Ok(u) => u,
            Err(e) => { return Err(e); },
        };
        match self.get_ico(c, index) {
            None => { return Err(DispatchError::Module(Error::IcoNotExists)); },
            Some(ico) => {
                if initiator != ico.initiator {
                    return Err(DispatchError::Module(Error::NotInitiator));
                }
            },
        }
        let release_info = match self.get_request_release_info(c, index) {
            None => { return Err(DispatchError::Module(Error::RequestNotExists)); },
            Some(info) => info,
        };
        let native = self.config.native_currency_id;
        let slash = release_info.pledge / 2;
        let unreserve = release_info.pledge.saturating_sub(slash);
        let _ = self.ledger.slash_reserved(native, initiator, slash);
        self.unreserve(native, initiator, unreserve);
        self.remove_request_release_info(Some(c), index, false);
        self.events.push(Event::CancelRequest(c, index));
        Ok(())
    }

    /// Governance approves the open request of offering `(c, index)`: the
    /// offering's released share becomes the requested one and the pledge
    /// is unreserved.
    pub fn permit_release(&mut self, origin: Origin, c: CurrencyId, index: u32) -> (r: Result<(), DispatchError>)
        requires
            old(self).wf(),
        ensures
            final(self).wf(),
            r == (if !origin_allowed(&old(self).config.permit_release_origin, origin) {
                Err(DispatchError::Module(Error::BadOrigin))
            } else {
                match old(self).ico_of(c, index) {
                    None => Err(DispatchError::Module(Error::IcoNotExists)),
                    Some(ico) => match old(self).request_of(c, index) {
                        None => Err(DispatchError::Module(Error::RequestNotExists)),
                        Some(req) => if ico.is_terminated {
                            Err(DispatchError::Module(Error::Icoterminated))
                        } else if !(req.percent@ > ico.already_released_proportion@) {
                            Err(DispatchError::Module(Error::ProportionTooLow))
                        } else {
                            Ok(())
                        },
                    },
                }
            }),
            r is Err ==> final(self).unchanged_except(old(self), touched_none()),
            r is Ok ==> {
                let ico = old(self).ico_of(c, index)->0;
                let req = old(self).request_of(c, index)->0;
                &&& final(self).unchanged_except(old(self), Touched { ledger: true, ico: true, requests: true, events: true, ..touched_none() })
                &&& final(self).ico@ == old(self).ico@.insert(ico_key(c, index), IcoInfo {
                    already_released_proportion: req.percent,
                    ..ico
                })
                &&& final(self).ledger@ == spec_unreserve(old(self).ledger@, old(self).config.native_currency_id, ico.initiator, req.pledge)
                &&& final(self).request_release_info@ == seq_swap_remove(old(self).request_release_info@,
                    release_pos(old(self).request_release_info@, c, index)->0)
                &&& final(self).events@ == old(self).events@.push(Event::PermitRelease(c, index, req))
            },
    {
        if !Self::ensure_origin(&self.config.permit_release_origin, origin) {
            return Err(DispatchError::Module(Error::BadOrigin));
        }
        let initiator = match self.get_ico(c, index) {
            None => { return Err(DispatchError::Module(Error::IcoNotExists)); },
            Some(ico) => ico.initiator,
        };
        let release_info = match self.get_request_release_info(c, index) {
            None => { return Err(DispatchError::Module(Error::RequestNotExists)); },
            Some(info) => info,
        };
        match self.get_ico(c, index) {
            None => { return Err(DispatchError::Module(Error::IcoNotExists)); },
            Some(ico) => {
                if ico.is_terminated {
                    return Err(DispatchError::Module(Error::Icoterminated));
                }
                if !(release_info.percent.deconstruct() > ico.already_released_proportion.deconstruct()) {
                    return Err(DispatchError::Module(Error::ProportionTooLow));
                }
            },
        }
        let mut ico = match self.take_ico(c, index) {
            Some(v) => v,
            None => { return Err(DispatchError::Module(Error::IcoNotExists)); },
        };
        ico.already_released_proportion = release_info.percent;
        self.remove_request_release_info(Some(c), index, false);
        let native = self.config.native_currency_id;
        self.unreserve(native, initiator, release_info.pledge);
        self.put_ico(c, index, ico);
        assert(self.ico@ =~= old(self).ico@.insert(ico_key(c, index), ico));
        proof { self.lemma_wf_put_ico(old(self), c, index, ico); }
        self.events.push(Event::PermitRelease(c, index, release_info));
        Ok(())
    }
}

/// The ledger and the outcome of a project's request to start an offering.
pub open spec fn spec_initiate(m: &IcoModule, origin: Origin, info: &IcoParameters) -> (Map<(CurrencyId, AccountId), AccountData>, Result<(), DispatchError>) {
    let native = m.config.native_currency_id;
    match signer(origin) {
        None => (m.ledger@, Err(DispatchError::BadOrigin)),
        Some(who) => if spec_initiate_checks(m, info, who) is Err {
            (m.ledger@, Err(spec_initiate_checks(m, info, who)->Err_0))
        } else if !m.metadata@.contains_key(info.exchange_token) || !m.metadata@.contains_key(info.currency_id) {
            (m.ledger@, Err(DispatchError::Ledger(LedgerError::MetadataNotExists)))
        } else if info.currency_id == native {
            (m.ledger@, Err(DispatchError::Module(Error::TokenIsDICO)))
        } else if m.total_num == u32::MAX {
            (m.ledger@, Err(DispatchError::Module(Error::Overflow)))
        } else if spec_can_withdraw(m.account(native, who), m.config.initiator_pledge) is Err {
            (m.ledger@, Err(DispatchError::Ledger(spec_can_withdraw(m.account(native, who), m.config.initiator_pledge)->Err_0)))
        } else {
            let m1 = spec_reserve(m.ledger@, native, who, m.config.initiator_pledge);
            if spec_can_withdraw(m1[(info.currency_id, who)], info.total_ico_amount) is Err {
                (m1, Err(DispatchError::Ledger(spec_can_withdraw(m1[(info.currency_id, who)], info.total_ico_amount)->Err_0)))
            } else {
                (spec_reserve(m1, info.currency_id, who, info.total_ico_amount), Ok(()))
            }
        },
    }
}

/// A pending offering made from a project's submission `info`, its
/// initiator `who`, the project token's metadata and the pledge.
pub open spec fn pending_made_from(p: PendingInfo, info: &IcoParameters, who: AccountId, meta: AssetMetadata, pledge: Balance) -> bool {
    &&& p.pledge == pledge
    &&& p.ico.start_time is None
    &&& !p.ico.is_already_kyc
    &&& p.ico.initiator == who
    &&& p.ico.total_usdt == 0
    &&& !p.ico.is_terminated
    &&& p.ico.project_name@ == meta.name@
    &&& p.ico.token_symbol@ == meta.symbol@
    &&& p.ico.decimals == meta.decimals
    &&& p.ico.index is None
    &&& p.ico.already_released_proportion@ == 0
    &&& p.ico.currency_id == info.currency_id
    &&& p.ico.logo_url == info.logo_url
    &&& p.ico.official_website == info.official_website
    &&& p.ico.user_ico_max_count == info.user_ico_max_count
    &&& p.ico.is_must_kyc == info.is_must_kyc
    &&& p.ico.total_issuance == info.total_issuance
    &&& p.ico.total_circulation == info.total_circulation
    &&& p.ico.ico_duration == info.ico_duration
    &&& p.ico.total_ico_amount == info.total_ico_amount
    &&& p.ico.user_min_amount == info.user_min_amount
    &&& p.ico.user_max_amount == info.user_max_amount
    &&& p.ico.exchange_token == info.exchange_token
    &&& p.ico.total_exchange_amount == info.total_exchange_amount
    &&& p.ico.exclude_nation == info.exclude_nation
    &&& p.ico.lock_proportion == info.lock_proportion
    &&& p.ico.unlock_duration == info.unlock_duration
    &&& p.ico.per_duration_unlock_amount == info.per_duration_unlock_amount
}

impl IcoModule {
    /// A project asks to start an offering of its token `info.currency_id`
    /// against `info.exchange_token`. Its initiator pledges the initiator
    /// pledge in the native currency and reserves the tokens offered; the
    /// offering waits for approval.
    pub fn initiate_ico(&mut self, origin: Origin, info: IcoParameters) -> (r: Result<(), DispatchError>)
        requires
            old(self).wf(),
        ensures
            final(self).wf(),
            (final(self).ledger@, r) == spec_initiate(old(self), origin, &info),
            r is Err ==> final(self).unchanged_except(old(self), Touched { ledger: true, ..touched_none() }),
            r is Ok ==> {
                let who = signer(origin)->0;
                &&& final(self).unchanged_except(old(self), Touched { ledger: true, pending: true, events: true, ..touched_none() })
                &&& final(self).pending_ico@.len() == old(self).pending_ico@.len() + 1
                &&& final(self).pending_ico@.drop_last() == old(self).pending_ico@
                &&& pending_made_from(final(self).pending_ico@.last(), &info, who,
                    old(self).metadata@[info.currency_id], old(self).config.initiator_pledge)
                &&& final(self).events@ == old(self).events@.push(Event::InitiateIco(who, info.exchange_token, info.total_ico_amount))
            },
    {
        let initiator = match Self::ensure_signed(origin) {
            Ok(u) => u,
            Err(e) => { return Err(e); },
        };
        match self.is_can_initiate_ico(&info, initiator) {
            Ok(_) => {},
            Err(e) => { return Err(e); },
        }
        if !self.metadata.contains_key(&info.exchange_token) {
            return Err(DispatchError::Ledger(LedgerError::MetadataNotExists));
        }
        let (name, symbol, decimals) = match self.metadata.get(&info.currency_id) {
            None => { return Err(DispatchError::Ledger(LedgerError::MetadataNotExists)); },
            Some(meta) => (meta.name.clone(), meta.symbol.clone(), meta.decimals),
        };
        let native = self.config.native_currency_id;
        if info.currency_id == native {
            return Err(DispatchError::Module(Error::TokenIsDICO));
        }
        if self.total_num.checked_add(1).is_none() {
            return Err(DispatchError::Module(Error::Overflow));
        }
        let pledge = self.config.initiator_pledge;
        match self.reserve(native, initiator, pledge) {
            Ok(()) => {},
            Err(e) => { return Err(e); },
        }
        match self.reserve(info.currency_id, initiator, info.total_ico_amount) {
            Ok(()) => {},
            Err(e) => { return Err(e); },
        }
        let exchange_token = info.exchange_token;
        let total_ico_amount = info.total_ico_amount;
        let ico = IcoInfo {
            start_time: None,
            is_already_kyc: Self::is_already_kyc(initiator),
            initiator,
            total_usdt: 0,
            is_terminated: false,
            project_name: name,
            token_symbol: symbol,
            decimals,
            index: None,
            already_released_proportion: Percent::from_percent(0),
            currency_id: info.currency_id,
            logo_url: info.logo_url,
            official_website: info.official_website,
            user_ico_max_count: info.user_ico_max_count,
            is_must_kyc: info.is_must_kyc,
            total_issuance: info.total_issuance,
            total_circulation: info.total_circulation,
            ico_duration: info.ico_duration,
            total_ico_amount: info.total_ico_amount,
            user_min_amount: info.user_min_amount,
            user_max_amount: info.user_max_amount,
            exchange_token: info.exchange_token,
            total_exchange_amount: info.total_exchange_amount,
            exclude_nation: info.exclude_nation,
            lock_proportion: info.lock_proportion,
            unlock_duration: info.unlock_duration,
            per_duration_unlock_amount: info.per_duration_unlock_amount,
        };
        self.pending_ico.push(PendingInfo { ico, pledge });
        assert(self.pending_ico@.drop_last() =~= old(self).pending_ico@);
        assert forall|i: int| 0 <= i < self.pending_ico@.len() implies pending_wf(#[trigger] self.pending_ico@[i]) by {
            if i < old(self).pending_ico@.len() {
                assert(self.pending_ico@[i] == old(self).pending_ico@[i]);
            }
        }
        self.events.push(Event::InitiateIco(initiator, exchange_token, total_ico_amount));
        Ok(())
    }

    /// Governance approves the pending offering of asset `c`: it gets the
    /// next offering number and starts now, and the initiator's pledge is
    /// unreserved.
    pub fn permit_ico(&mut self, origin: Origin, c: CurrencyId) -> (r: Result<(), DispatchError>)
        requires
            old(self).wf(),
        ensures
            final(self).wf(),
            r == (if origin != Origin::Root {
                Err(DispatchError::BadOrigin)
            } else if pending_pos(old(self).pending_ico@, c) is None {
                Err(DispatchError::Module(Error::PendingIcoNotExists))
            } else if old(self).total_num == u32::MAX {
                Err(DispatchError::Module(Error::Overflow))
            } else {
                Ok(())
            }),
            r is Err ==> final(self).unchanged_except(old(self), touched_none()),
            r is Ok ==> {
                let pos = pending_pos(old(self).pending_ico@, c)->0;
                let p = old(self).pending_ico@[pos];
                let n = (old(self).total_num + 1) as u32;
                &&& final(self).unchanged_except(old(self), Touched {
                    ledger: true, pending: true, ico: true, totals: true, indexs: true, remain: true, events: true,
                    ..touched_none()
                })
                &&& final(self).pending_ico@ == seq_swap_remove(old(self).pending_ico@, pos)
                &&& final(self).ledger@ == spec_unreserve(old(self).ledger@, old(self).config.native_currency_id, p.ico.initiator, p.pledge)
                &&& final(self).ico@ == old(self).ico@.insert(ico_key(c, n), IcoInfo {
                    start_time: Some(old(self).block_number),
                    index: Some(n),
                    ..p.ico
                })
                &&& final(self).total_num == n
                &&& final(self).total_usdt == old(self).total_usdt
                &&& final(self).indexes_of(c) == old(self).indexes_of(c).push(n)
                &&& forall|c2: CurrencyId| c2 != c ==> #[trigger] final(self).indexes_of(c2) == old(self).indexes_of(c2)
                &&& final(self).remain_amount_is_already_unserve@ == old(self).remain_amount_is_already_unserve@.insert(ico_key(c, n), false)
                &&& final(self).events@ == old(self).events@.push(Event::PermitIco(p.ico.initiator, p.ico.currency_id))
            },
    {
        match Self::ensure_root(origin) {
            Ok(()) => {},
            Err(e) => { return Err(e); },
        }
        let found = find_pending(&self.pending_ico, c);
        proof { lemma_pending_pos_facts(self.pending_ico@, c); }
        let pos = match found {
            None => { return Err(DispatchError::Module(Error::PendingIcoNotExists)); },
            Some(pos) => pos,
        };
        let total_num = match self.total_num.checked_add(1) {
            None => { return Err(DispatchError::Module(Error::Overflow)); },
            Some(n) => n,
        };
        let ghost pend0 = self.pending_ico@;
        let mut pending_info = self.pending_ico.swap_remove(pos);
        assert forall|i: int| 0 <= i < self.pending_ico@.len() implies pending_wf(#[trigger] self.pending_ico@[i]) by {
            if i == pos as int {
                assert(self.pending_ico@[i] == pend0.last());
                assert(pending_wf(pend0[pend0.len() - 1]));
            } else {
                assert(self.pending_ico@[i] == pend0[i]);
            }
        }
        assert(pending_wf(pend0[pos as int]));
        let native = self.config.native_currency_id;
        self.unreserve(native, pending_info.ico.initiator, pending_info.pledge);
        let initiator = pending_info.ico.initiator;
        let currency_id = pending_info.ico.currency_id;
        pending_info.ico.start_time = Some(self.now());
        pending_info.ico.index = Some(total_num);
        self.put_ico(c, total_num, pending_info.ico);
        proof {
            assert forall|k: u64| #[trigger] self.ico@.contains_key(k) implies ico_entry_wf(k, self.ico@[k]) by {
                if k != ico_key(c, total_num) {
                    assert(old(self).ico@.contains_key(k));
                }
            }
        }
        self.total_num = total_num;
        let mut idx = match self.indexs.remove(&c) {
            Some(v) => v,
            None => Vec::new(),
        };
        assert(idx@ == old(self).indexes_of(c));
        idx.push(total_num);
        self.indexs.insert(c, idx);
        assert(self.indexs@ =~= old(self).indexs@.insert(c, idx));
        let k = ico_key_of(c, total_num);
        self.remain_amount_is_already_unserve.insert(k, false);
        self.events.push(Event::PermitIco(initiator, currency_id));
        Ok(())
    }

    /// Governance rejects the pending offering of asset `c`: the initiator's
    /// pledge is slashed and the offered tokens are unreserved.
    pub fn reject_ico(&mut self, origin: Origin, c: CurrencyId) -> (r: Result<(), DispatchError>)
        requires
            old(self).wf(),
        ensures
            final(self).wf(),
            r == (if origin != Origin::Root {
                Err(DispatchError::BadOrigin)
            } else if pending_pos(old(self).pending_ico@, c) is None {
                Err(DispatchError::Module(Error::PendingIcoNotExists))
            } else {
                Ok(())
            }),
            r is Err ==> final(self).unchanged_except(old(self), touched_none()),
            r is Ok ==> {
                let pos = pending_pos(old(self).pending_ico@, c)->0;
                let p = old(self).pending_ico@[pos];
                &&& final(self).unchanged_except(old(self), Touched { ledger: true, pending: true, events: true, ..touched_none() })
                &&& final(self).pending_ico@ == seq_swap_remove(old(self).pending_ico@, pos)
                &&& final(self).ledger@ == spec_unreserve(
                    spec_slash_reserved(old(self).ledger@, old(self).config.native_currency_id, p.ico.initiator, p.pledge),
                    p.ico.currency_id, p.ico.initiator, p.ico.total_ico_amount)
                &&& final(self).events@ == old(self).events@.push(Event::RejectIco(p.ico.initiator, p.ico.currency_id))
            },
    {
        match Self::ensure_root(origin) {
            Ok(()) => {},
            Err(e) => { return Err(e); },
        }
        let found = find_pending(&self.pending_ico, c);
        proof { lemma_pending_pos_facts(self.pending_ico@, c); }
        let pos = match found {
            None => { return Err(DispatchError::Module(Error::PendingIcoNotExists)); },
            Some(pos) => pos,
        };
        let ghost pend0 = self.pending_ico@;
        let pending_info = self.pending_ico.swap_remove(pos);
        assert forall|i: int| 0 <= i < self.pending_ico@.len() implies pending_wf(#[trigger] self.pending_ico@[i]) by {
            if i == pos as int {
                assert(self.pending_ico@[i] == pend0.last());
                assert(pending_wf(pend0[pend0.len() - 1]));
            } else {
                assert(self.pending_ico@[i] == pend0[i]);
            }
        }
        let native = self.config.native_currency_id;
        let _ = self.ledger.slash_reserved(native, pending_info.ico.initiator, pending_info.pledge);
        self.unreserve(pending_info.ico.currency_id, pending_info.ico.initiator, pending_info.ico.total_ico_amount);
        self.events.push(Event::RejectIco(pending_info.ico.initiator, pending_info.ico.currency_id));
        Ok(())
    }
}

/// The US dollar value of a participation paying `amount` of the
/// offering's exchange token.
pub open spec fn join_value(m: &IcoModule, ico: IcoInfo, amount: Balance) -> Result<Balance, DispatchError> {
    spec_convert_usdt(
        ico.exchange_token == m.config.native_currency_id,
        m.config.native_multiple.numerator,
        m.config.native_multiple.denominator,
        m.metadata@[ico.exchange_token].decimals,
        amount,
    )
}

/// The checks of a participation of `amount` in offering `(c, index)` made
/// before the participant's holding is looked at, in order; on success, the
/// US dollar value the participation adds to the offering.
pub open spec fn spec_join_pre_checks(m: &IcoModule, origin: Origin, c: CurrencyId, index: u32, amount: Balance) -> Result<Balance, DispatchError> {
    match signer(origin) {
        None => Err(DispatchError::BadOrigin),
        Some(who) => if amount == 0 {
            Err(DispatchError::Module(Error::AmountIsZero))
        } else {
            match m.ico_of(c, index) {
                None => Err(DispatchError::Module(Error::IcoNotExists)),
                Some(ico) => if !m.metadata@.contains_key(ico.exchange_token) {
                    Err(DispatchError::Ledger(LedgerError::MetadataNotExists))
                } else if join_value(m, ico, amount) is Err {
                    join_value(m, ico, amount)
                } else {
                    let base = join_value(m, ico, amount)->Ok_0;
                    let book = m.book_of(who, c, index);
                    let total: int = match book { Some(b) => base + b.total_usdt, None => base as int };
                    if total > u128::MAX {
                        Err(DispatchError::Module(Error::Overflow))
                    } else if !(total >= ico.user_min_amount && total <= ico.user_max_amount) {
                        Err(DispatchError::Module(Error::AmountNotMeetProjectRequirement))
                    } else if !(total >= m.ico_min_usdt_amount && total <= m.ico_max_usdt_amount) {
                        Err(DispatchError::Module(Error::AmountNotMeetSystemRequirement))
                    } else if ico.ico_duration + ico.start_time->0 < m.block_number {
                        Err(DispatchError::Module(Error::IcoExpire))
                    } else if ico.is_terminated {
                        Err(DispatchError::Module(Error::Icoterminated))
                    } else if ico.initiator == who {
                        Err(DispatchError::Module(Error::InitiatorYourself))
                    } else if book is Some && !(book->0.tags.len() + 1 <= ico.user_ico_max_count) {
                        Err(DispatchError::Module(Error::IcoCountToMax))
                    } else if ico.currency_id != c {
                        Err(DispatchError::Module(Error::CurrencyIdErr))
                    } else if ico.is_must_kyc {
                        Err(DispatchError::Module(Error::InExcludeNation))
                    } else if ico.total_usdt + base > u128::MAX {
                        Err(DispatchError::Module(Error::Overflow))
                    } else {
                        Ok(base)
                    }
                },
            }
        },
    }
}

/// The checks of a participation of `amount` in offering `(c, index)`, in
/// the order they are made; on success, the US dollar value the
/// participation adds to the offering.
pub open spec fn spec_join_checks(m: &IcoModule, origin: Origin, c: CurrencyId, index: u32, amount: Balance) -> Result<Balance, DispatchError> {
    match spec_join_pre_checks(m, origin, c, index, amount) {
        Err(e) => Err(e),
        Ok(base) => {
            let who = signer(origin)->0;
            let ico = m.ico_of(c, index)->0;
            match spec_user_amount_satisfy(m, ico, amount, c, index, who) {
                Err(e) => Err(e),
                Ok(_) => Ok(base),
            }
        },
    }
}

/// A participation computes without overflow along the path its checks
/// take: the payment's value, the offering's end block, and the exchanges of
/// what the participant holds and of what it pays all fit.
pub open spec fn join_defined(m: &IcoModule, origin: Origin, c: CurrencyId, index: u32, amount: Balance) -> bool {
    match signer(origin) {
        None => true,
        Some(who) => amount == 0 || match m.ico_of(c, index) {
            None => true,
            Some(ico) => !m.metadata@.contains_key(ico.exchange_token) || {
                &&& convert_usdt_ok(ico.exchange_token == m.config.native_currency_id, m.config.native_multiple.numerator,
                    m.metadata@[ico.exchange_token].decimals, amount)
                &&& join_value(m, ico, amount) is Ok ==> {
                    let base = join_value(m, ico, amount)->Ok_0;
                    let total: int = match m.book_of(who, c, index) { Some(b) => base + b.total_usdt, None => base as int };
                    total <= u128::MAX && total >= ico.user_min_amount && total <= ico.user_max_amount
                        && total >= m.ico_min_usdt_amount && total <= m.ico_max_usdt_amount
                        ==> ico.ico_duration + ico.start_time->0 <= u64::MAX
                }
                &&& spec_join_pre_checks(m, origin, c, index, amount) is Ok
                    ==> spec_swap_amount(false, m.spec_user_ico_amount(c, index, who).0, ico.total_ico_amount, ico.total_exchange_amount) <= u128::MAX
                &&& spec_join_checks(m, origin, c, index, amount) is Ok ==> swap_ok(true, amount, ico.total_ico_amount, ico.total_exchange_amount)
            },
        },
    }
}

impl IcoModule {
    /// An account joins offering `(c, index)` with `amount` of its exchange
    /// token: it pays the initiator, receives the matching project tokens in
    /// its reserve, and both books record the participation.
    pub fn join(&mut self, origin: Origin, c: CurrencyId, index: u32, amount: Balance) -> (r: Result<(), DispatchError>)
        requires
            old(self).wf(),
            join_defined(old(self), origin, c, index, amount),
        ensures
            final(self).wf(),
            spec_join_checks(old(self), origin, c, index, amount) is Err ==> {
                &&& r == Err::<(), DispatchError>(spec_join_checks(old(self), origin, c, index, amount)->Err_0)
                &&& final(self).unchanged_except(old(self), touched_none())
            },
            spec_join_checks(old(self), origin, c, index, amount) is Ok ==> {
                let who = signer(origin)->0;
                let base = spec_join_checks(old(self), origin, c, index, amount)->Ok_0;
                let ico = old(self).ico_of(c, index)->0;
                let new_ico = IcoInfo { total_usdt: (ico.total_usdt + base) as u128, ..ico };
                let (m2, sr) = spec_swap(old(self).ledger@, old(self).config.native_currency_id, who, amount, new_ico);
                &&& final(self).ledger@ == m2
                &&& sr is Err ==> {
                    &&& r == Err::<(), DispatchError>(sr->Err_0)
                    &&& final(self).unchanged_except(old(self), Touched { ledger: true, ..touched_none() })
                }
                &&& sr is Ok ==> {
                    &&& r is Ok
                    &&& final(self).unchanged_except(old(self), Touched { ledger: true, ico: true, assets: true, events: true, ..touched_none() })
                    &&& final(self).ico@ == old(self).ico@.insert(ico_key(c, index), new_ico)
                    &&& final(self).assets_of(who) == spec_update_assets(old(self).assets_of(who), false, c,
                        ico.exchange_token, index, spec_swap_amount(true, amount, ico.total_ico_amount, ico.total_exchange_amount) as u128,
                        base, true, None)
                    &&& final(self).assets_of(ico.initiator) == spec_update_assets(old(self).assets_of(ico.initiator), true,
                        c, ico.exchange_token, index, amount, base, true, None)
                    &&& final(self).events@ == old(self).events@.push(Event::Join(who, c, index, amount, sr->Ok_0))
                }
            },
    {
        let user = match Self::ensure_signed(origin) {
            Ok(u) => u,
            Err(e) => { return Err(e); },
        };
        if amount == 0 {
            return Err(DispatchError::Module(Error::AmountIsZero));
        }
        let exchange_token = match self.get_ico(c, index) {
            None => { return Err(DispatchError::Module(Error::IcoNotExists)); },
            Some(ico) => ico.exchange_token,
        };
        let ghost ico0 = self.ico_of(c, index)->0;
        let exchange_token_decimals = match self.metadata.get(&exchange_token) {
            None => { return Err(DispatchError::Ledger(LedgerError::MetadataNotExists)); },
            Some(meta) => meta.decimals,
        };
        let total_usdt_cp = match self.exchange_token_convert_usdt(exchange_token, exchange_token_decimals, amount) {
            Ok(v) => v,
            Err(e) => { return Err(e); },
        };
        let mut total_usdt = total_usdt_cp;
        let mut joined_count: Option<usize> = None;
        match self.get_unrelease_assets(user, c, index) {
            None => {},
            Some(info) => {
                match total_usdt.checked_add(info.total_usdt) {
                    None => { return Err(DispatchError::Module(Error::Overflow)); },
                    Some(t) => { total_usdt = t; },
                }
                joined_count = Some(info.tags.len());
            },
        }
        match self.get_ico(c, index) {
            None => { return Err(DispatchError::Module(Error::IcoNotExists)); },
            Some(ico) => {
                if !(total_usdt >= ico.user_min_amount && total_usdt <= ico.user_max_amount) {
                    return Err(DispatchError::Module(Error::AmountNotMeetProjectRequirement));
                }
                if !(total_usdt >= self.ico_min_usdt_amount && total_usdt <= self.ico_max_usdt_amount) {
                    return Err(DispatchError::Module(Error::AmountNotMeetSystemRequirement));
                }
                let start = match ico.start_time { Some(t) => t, None => 0 };
                if ico.ico_duration + start < self.now() {
                    return Err(DispatchError::Module(Error::IcoExpire));
                }
                if ico.is_terminated {
                    return Err(DispatchError::Module(Error::Icoterminated));
                }
                if ico.initiator == user {
                    return Err(DispatchError::Module(Error::InitiatorYourself));
                }
                match joined_count {
                    Some(n) => {
                        if !(n.saturating_add(1) <= ico.user_ico_max_count as usize) {
                            return Err(DispatchError::Module(Error::IcoCountToMax));
                        }
                    },
                    None => {},
                }
                if ico.currency_id != c {
                    return Err(DispatchError::Module(Error::CurrencyIdErr));
                }
            },
        }
        match self.is_in_exclude_nation(user, c, index) {
            Err(e) => { return Err(e); },
            Ok(excluded) => {
                if excluded {
                    return Err(DispatchError::Module(Error::InExcludeNation));
                }
            },
        }
        let mut ico = match self.take_ico(c, index) {
            Some(v) => v,
            None => { return Err(DispatchError::Module(Error::IcoNotExists)); },
        };
        match ico.total_usdt.checked_add(total_usdt_cp) {
            None => {
                self.put_ico(c, index, ico);
                assert(self.ico@ =~= old(self).ico@);
                return Err(DispatchError::Module(Error::Overflow));
            },
            Some(t) => { ico.total_usdt = t; },
        }
        match self.is_user_amount_satisfy(&ico, amount, ico.currency_id, index, user) {
            Ok(_) => {},
            Err(e) => {
                self.put_ico(c, index, ico0_restore(ico, total_usdt_cp));
                assert(self.ico@ =~= old(self).ico@);
                return Err(e);
            },
        }
        let user_exchange_amount = match self.swap(user, amount, &ico) {
            Ok(v) => v,
            Err(e) => {
                self.put_ico(c, index, ico0_restore(ico, total_usdt_cp));
                assert(self.ico@ =~= old(self).ico@);
                return Err(e);
            },
        };
        let ghost new_ico = ico;
        let ghost pre = *self;
        self.insert_ico_assets_info(user, &ico, amount, total_usdt_cp);
        proof {
            crate::laws::lemma_books_stay_unique(pre.assets_of(user), false, ico.currency_id,
                ico.exchange_token, ico.index->0,
                spec_swap_amount(true, amount, ico.total_ico_amount, ico.total_exchange_amount) as u128,
                total_usdt_cp, true, None);
            crate::laws::lemma_books_stay_unique(pre.assets_of(ico.initiator), true, ico.currency_id,
                ico.exchange_token, ico.index->0, amount, total_usdt_cp, true, None);
            self.lemma_books_unique_after(&pre, user, ico.initiator);
        }
        self.put_ico(c, index, ico);
        assert(self.ico@ =~= old(self).ico@.insert(ico_key(c, index), new_ico));
        proof {
            let k = ico_key(c, index);
            assert(old(self).ico@.contains_key(k));
            crate::reward::lemma_reward_cap_monotone(old(self).ico@[k].total_usdt as int, new_ico.total_usdt as int,
                old(self).config.ico_total_reward as int);
            self.lemma_wf_put_ico(old(self), c, index, new_ico);
        }
        self.events.push(Event::Join(user, c, index, amount, user_exchange_amount));
        Ok(())
    }
}

/// Whether a participant holding `held` exchange tokens' worth may add
/// `amount`, and whether the offering still has room for it.
pub open spec fn spec_user_amount_satisfy(m: &IcoModule, ico: IcoInfo, amount: Balance, c: CurrencyId, index: u32, who: AccountId) -> Result<bool, DispatchError> {
    let held = spec_swap_amount(false, m.spec_user_ico_amount(c, index, who).0,
        ico.total_ico_amount, ico.total_exchange_amount) as u128;
    let raised = m.spec_user_ico_amount(ico.currency_id, index, ico.initiator).0;
    if !(sat_add(held, amount) >= ico.user_min_amount && sat_add(held, amount) <= ico.user_max_amount) {
        Err(DispatchError::Module(Error::AmountTooLowOrTooBig))
    } else if !(sat_sub(ico.total_exchange_amount as int, raised as int) >= amount) {
        Err(DispatchError::Module(Error::AmountTooLow))
    } else {
        Ok(true)
    }
}

impl IcoModule {
    /// Whether `who` may add `amount` of exchange tokens to offering `ico`:
    /// its holding, counted in exchange tokens, plus `amount` stays within
    /// the offering's range, and the offering still has room for `amount`.
    pub fn is_user_amount_satisfy(&self, ico: &IcoInfo, amount: Balance, c: CurrencyId, index: u32, who: AccountId) -> (r: Result<bool, DispatchError>)
        requires
            swap_ok(false, self.spec_user_ico_amount(c, index, who).0, ico.total_ico_amount, ico.total_exchange_amount),
        ensures
            r == spec_user_amount_satisfy(self, *ico, amount, c, index, who),
    {
        let user_total_amount = self.get_user_total_amount(c, index, &who);
        let held = Self::get_swap_token_amount(false, user_total_amount, ico);
        let with_amount = held.saturating_add(amount);
        if !(with_amount >= ico.user_min_amount && with_amount <= ico.user_max_amount) {
            return Err(DispatchError::Module(Error::AmountTooLowOrTooBig));
        }
        let initiator_total_amount = self.get_user_ico_amount(ico.currency_id, index, ico.initiator).0;
        if !(ico.total_exchange_amount.saturating_sub(initiator_total_amount) >= amount) {
            return Err(DispatchError::Module(Error::AmountTooLow));
        }
        Ok(true)
    }
}

/// Undoes the raise of an offering's value by `added`.
fn ico0_restore(ico: IcoInfo, added: Balance) -> (r: IcoInfo)
    requires
        ico.total_usdt >= added,
    ensures
        r == (IcoInfo { total_usdt: (ico.total_usdt - added) as u128, ..ico }),
{
    let mut ico = ico;
    ico.total_usdt = ico.total_usdt - added;
    ico
}

/// The checks of a release request by `origin` in offering `(c, index)`, in
/// order; on success, the caller's book.
pub open spec fn spec_release_checks(m: &IcoModule, origin: Origin, c: CurrencyId, index: u32) -> Result<UnReleaseView, DispatchError> {
    match signer(origin) {
        None => Err(DispatchError::BadOrigin),
        Some(who) => match m.ico_of(c, index) {
            None => Err(DispatchError::Module(Error::IcoNotExists)),
            Some(ico) => match m.book_of(who, c, index) {
                None => Err(DispatchError::Module(Error::NotIcoMember)),
                Some(b) => if !(sat_sub(b.total as int, b.released as int) > 0) {
                    Err(DispatchError::Module(Error::UnreleasedAmountIsZero))
                } else {
                    Ok(b)
                },
            },
        },
    }
}

/// What a release in offering `ico` owes a holder of book `b` in all: the
/// offering's released share of what the book holds.
pub open spec fn should_release(ico: IcoInfo, b: UnReleaseView) -> Balance {
    spec_percent_of(ico.already_released_proportion@ as int, b.total as int) as u128
}

/// Whether a release settles the caller's holding of a terminated offering.
pub open spec fn release_settles_termination(ico: IcoInfo, who: AccountId, b: UnReleaseView) -> bool {
    ico.is_terminated && who != ico.initiator && !b.is_terminated
}

/// Whether a release settles the unsold tokens of the offering first.
pub open spec fn release_settles_unsold(m: &IcoModule, ico: IcoInfo, c: CurrencyId, index: u32) -> bool {
    (ico.is_terminated || ico.start_time->0 + ico.ico_duration < m.block_number) && !m.remain_settled(c, index)
}

/// A release computes without overflow along the path it takes.
pub open spec fn release_defined(m: &IcoModule, origin: Origin, c: CurrencyId, index: u32) -> bool {
    spec_release_checks(m, origin, c, index) is Ok ==> {
        let who = signer(origin)->0;
        let ico = m.ico_of(c, index)->0;
        let b = spec_release_checks(m, origin, c, index)->Ok_0;
        let remain = sat_sub(b.total as int, should_release(ico, b) as int) as u128;
        let raised = m.spec_user_ico_amount(c, index, ico.initiator).0;
        &&& release_settles_termination(ico, who, b) ==> swap_ok(false, remain, ico.total_ico_amount, ico.total_exchange_amount)
        &&& !ico.is_terminated ==> ico.start_time->0 + ico.ico_duration <= u64::MAX
        &&& release_settles_unsold(m, ico, c, index) ==> swap_ok(true, sat_sub(ico.total_exchange_amount as int, raised as int) as u128,
            ico.total_ico_amount, ico.total_exchange_amount)
    }
}

impl IcoModule {
    /// A participant (or the initiator) of offering `(c, index)` takes what
    /// the offering's released share owes it. A buyer of a terminated
    /// offering first settles its whole holding; once the offering has
    /// ended, its unsold tokens are settled on the first release.
    pub fn user_release_ico_amount(&mut self, origin: Origin, c: CurrencyId, index: u32) -> (r: Result<(), DispatchError>)
        requires
            old(self).wf(),
            release_defined(old(self), origin, c, index),
        ensures
            final(self).wf(),
            spec_release_checks(old(self), origin, c, index) is Err ==> {
                &&& r == Err::<(), DispatchError>(spec_release_checks(old(self), origin, c, index)->Err_0)
                &&& final(self).unchanged_except(old(self), touched_none())
            },
            spec_release_checks(old(self), origin, c, index) is Ok ==> {
                let who = signer(origin)->0;
                let ico = old(self).ico_of(c, index)->0;
                let b = spec_release_checks(old(self), origin, c, index)->Ok_0;
                let should = should_release(ico, b);
                let term = release_settles_termination(ico, who, b);
                let remain = sat_sub(b.total as int, should as int) as u128;
                let raised = old(self).spec_user_ico_amount(c, index, ico.initiator).0;
                let settle = release_settles_unsold(old(self), ico, c, index);
                let this_time = sat_sub(should as int, b.released as int) as u128;
                let min_parts = old(self).config.min_proportion@;
                let m1 = if term { ledger_after_termination(old(self).ledger@, who, remain, ico, min_parts, raised) } else { old(self).ledger@ };
                let m2 = if settle { ledger_after_unsold(m1, ico, min_parts, raised) } else { m1 };
                let a0 = old(self).assets_of(who);
                let a1 = if term {
                    spec_update_assets(a0, false, c, ico.exchange_token, index, remain, 0, false, Some(true))
                } else { a0 };
                let e0 = old(self).events@;
                let e1 = if term { e0.push(Event::TerminatedGiveBackAmount(who, c, index, remain)) } else { e0 };
                let e2 = if settle { e1.push(Event::UnreservedInitiatorRemainPledgeAmount(c, index, unsold_amount(ico, raised))) } else { e1 };
                let keep = spec_percent_of(ico.lock_proportion@ as int, this_time as int);
                &&& r == (if this_time == 0 && !term { Err(DispatchError::Module(Error::UnreleaseAmountIsZero)) } else { Ok::<(), DispatchError>(()) })
                &&& final(self).unchanged_except(old(self), Touched { ledger: true, assets: true, locks: true, remain: true, events: true, ..touched_none() })
                &&& final(self).ledger@ == if this_time > 0 { ledger_after_release(m2, who, ico, this_time) } else { m2 }
                &&& final(self).assets_of(who) == if this_time > 0 {
                    spec_update_assets(a1, who == ico.initiator, c, ico.exchange_token, index, this_time, 0, false, None)
                } else { a1 }
                &&& final(self).assets_same_except(old(self), who)
                &&& final(self).remain_amount_is_already_unserve@ == if settle {
                    old(self).remain_amount_is_already_unserve@.insert(ico_key(c, index), true)
                } else { old(self).remain_amount_is_already_unserve@ }
                &&& (this_time > 0 && who != ico.initiator && keep > 0) ==> {
                    &&& final(self).locks_of(who, c) == old(self).locks_of(who, c).push(
                        spec_new_lock(old(self).block_number, ico, keep as u128))
                    &&& final(self).locks_same_except(old(self), who, c)
                }
                &&& !(this_time > 0 && who != ico.initiator && keep > 0) ==> final(self).ico_locks@ == old(self).ico_locks@
                &&& final(self).events@ == if this_time > 0 { e2.push(Event::UserReleaseIcoAmount(c, index, this_time)) } else { e2 }
            },
    {
        let user = match Self::ensure_signed(origin) {
            Ok(u) => u,
            Err(e) => { return Err(e); },
        };
        let ico = match self.take_ico(c, index) {
            Some(v) => v,
            None => {
                assert(self.ico@ =~= old(self).ico@);
                return Err(DispatchError::Module(Error::IcoNotExists));
            },
        };
        proof { lemma_ico_key_injective(c, index, ico.currency_id, ico.index->0); }
        let ghost s0 = *self;
        let ghost raised = old(self).spec_user_ico_amount(c, index, ico.initiator).0;
        let (total, released, book_terminated) = match self.get_unrelease_assets(user, c, index) {
            None => {
                self.put_ico(c, index, ico);
                assert(self.ico@ =~= old(self).ico@);
                return Err(DispatchError::Module(Error::NotIcoMember));
            },
            Some(info) => (info.total, info.released, info.is_terminated),
        };
        if !(total.saturating_sub(released) > 0) {
            self.put_ico(c, index, ico);
            assert(self.ico@ =~= old(self).ico@);
            return Err(DispatchError::Module(Error::UnreleasedAmountIsZero));
        }
        let parts = ico.already_released_proportion.deconstruct();
        let should_released = percent_of(parts, total);
        let mut is_terminated_released_amount = false;
        if ico.is_terminated && user != ico.initiator && !book_terminated {
            self.terminated_unreleased_user_amount(user, total, should_released, &ico);
            is_terminated_released_amount = true;
        }
        let ghost s1 = *self;
        proof {
            if is_terminated_released_amount {
                assert(s1.unrelease_assets@.contains_key(ico.initiator) == s0.unrelease_assets@.contains_key(ico.initiator));
                assert(s1.assets_of(ico.initiator) == s0.assets_of(ico.initiator));
            }
            assert(s1.spec_user_ico_amount(c, index, ico.initiator).0 == raised);
        }
        let settled = match self.remain_amount_is_already_unserve.get(&ico_key_of(c, index)) {
            Some(b) => *b,
            None => false,
        };
        if self.is_ico_expire(&ico) && !settled {
            self.unreserved_initiator_not_ico_amount(&ico);
        }
        let ghost s2 = *self;
        proof {
            let min_parts = old(self).config.min_proportion@;
            let remain = sat_sub(total as int, should_released as int) as u128;
            let m1 = if is_terminated_released_amount { ledger_after_termination(old(self).ledger@, user, remain, ico, min_parts, raised) } else { old(self).ledger@ };
            assert(s1.ledger@ == m1);
            let st = release_settles_unsold(old(self), ico, c, index);
            assert(s2.ledger@ == if st { ledger_after_unsold(m1, ico, min_parts, raised) } else { m1 });
        }
        let thistime_release_amount = should_released.saturating_sub(released);
        if thistime_release_amount == 0 {
            self.put_ico(c, index, ico);
            assert(self.ico@ =~= old(self).ico@);
            if !is_terminated_released_amount {
                return Err(DispatchError::Module(Error::UnreleaseAmountIsZero));
            } else {
                return Ok(());
            }
        }
        let ghost s3 = *self;
        self.common_unreleased_user_amount(user, &ico, thistime_release_amount);
        let ghost s4 = *self;
        self.put_ico(c, index, ico);
        assert(self.ico@ =~= old(self).ico@);
        proof {
            let b = spec_release_checks(old(self), origin, c, index)->Ok_0;
            assert(b.total == total && b.released == released);
            assert(self.ledger@ == ledger_after_release(s2.ledger@, user, ico, thistime_release_amount));
            assert(self.remain_amount_is_already_unserve@ == s2.remain_amount_is_already_unserve@);
            assert(s1.remain_amount_is_already_unserve@ == old(self).remain_amount_is_already_unserve@);
            assert(self.events@ == s2.events@.push(Event::UserReleaseIcoAmount(c, index, thistime_release_amount)));
            assert(s2.assets_of(user) == s1.assets_of(user));
            assert(self.assets_same_except(old(self), user));
            assert(s1.ico_locks@ == old(self).ico_locks@);
            assert(s2.ico_locks@ == old(self).ico_locks@);
            let who = user;
            let should = should_release(ico, b);
            assert(should == should_released);
            let term = release_settles_termination(ico, who, b);
            assert(term == is_terminated_released_amount);
            let remain = sat_sub(b.total as int, should as int) as u128;
            let settle = release_settles_unsold(old(self), ico, c, index);
            let e0 = old(self).events@;
            let e1 = if term { e0.push(Event::TerminatedGiveBackAmount(who, c, index, remain)) } else { e0 };
            assert(s1.events@ == e1);
            let e2 = if settle { e1.push(Event::UnreservedInitiatorRemainPledgeAmount(c, index, unsold_amount(ico, raised))) } else { e1 };
            assert(s2.events@ == e2);
            let a0 = old(self).assets_of(who);
            let a1 = if term {
                spec_update_assets(a0, false, c, ico.exchange_token, index, remain, 0, false, Some(true))
            } else { a0 };
            assert(s1.assets_of(who) == a1);
            assert(s3.assets_of(who) == a1);
            let this_time = sat_sub(should as int, b.released as int) as u128;
            assert(this_time == thistime_release_amount);
            let min_parts = old(self).config.min_proportion@;
            let m1 = if term { ledger_after_termination(old(self).ledger@, who, remain, ico, min_parts, raised) } else { old(self).ledger@ };
            let m2 = if settle { ledger_after_unsold(m1, ico, min_parts, raised) } else { m1 };
            assert(self.ledger@ == ledger_after_release(m2, who, ico, this_time));
            assert(self.unchanged_except(old(self), Touched { ledger: true, assets: true, locks: true, remain: true, events: true, ..touched_none() }));
            let keep = spec_percent_of(ico.lock_proportion@ as int, this_time as int);
            if this_time > 0 && who != ico.initiator && keep > 0 {
                assert(self.locks_of(who, c) == old(self).locks_of(who, c).push(spec_new_lock(old(self).block_number, ico, keep as u128)));
                assert(s3.ico_locks@ == old(self).ico_locks@);
                assert forall|w: AccountId, c2: CurrencyId| (w, c2) != (who, c) implies #[trigger] self.locks_of(w, c2) == old(self).locks_of(w, c2) by {
                    assert(s4.locks_of(w, c2) == s3.locks_of(w, c2));
                    assert(self.locks_of(w, c2) == s4.locks_of(w, c2));
                    assert(s3.locks_of(w, c2) == old(self).locks_of(w, c2));
                }
            } else {
                assert(self.ico_locks@ == old(self).ico_locks@);
            }
        }
        Ok(())
    }
}

/// The reward a holder of book `b` earns in offering `ico`, whose own
/// reward is `project_reward`.
pub open spec fn spec_user_reward_of(ico: IcoInfo, b: UnReleaseView, project_reward: int) -> int {
    crate::reward::spec_user_reward(crate::reward::classify_all(b.tags, (ico.total_usdt / 10) as int),
        ico.total_usdt as int, project_reward)
}

/// An account's books after the reward of offering `(c, index)` was taken:
/// the book is marked (taken out, the last book filling its place, and
/// appended again), or dropped when all of it was released too.
pub open spec fn spec_mark_rewarded(s: Seq<UnReleaseView>, c: CurrencyId, index: u32) -> Seq<UnReleaseView> {
    match asset_pos(s, c, index) {
        Some(p) => {
            let b = UnReleaseView { is_already_get_reward: Some(true), ..s[p] };
            if b.released == b.total { seq_swap_remove(s, p) } else { seq_swap_remove(s, p).push(b) }
        },
        None => s,
    }
}

/// A reward claim computes without overflow or division by zero along the
/// path it takes.
pub open spec fn reward_defined(m: &IcoModule, origin: Origin, c: CurrencyId, index: u32) -> bool {
    match signer(origin) {
        None => true,
        Some(who) => match m.ico_of(c, index) {
            None => true,
            Some(ico) => {
                &&& !ico.is_terminated ==> ico.start_time->0 + ico.ico_duration <= u64::MAX
                &&& (ico.is_terminated || ico.start_time->0 + ico.ico_duration < m.block_number) ==> {
                    &&& !m.ico_rewards@.contains_key(ico_key(ico.currency_id, ico.index->0)) ==> {
                        &&& crate::reward::spec_history_after(m.total_usdt as int, ico.total_usdt as int) < 32 * crate::reward::CHANGE_REWARD
                        &&& crate::reward::spec_total_reward(m.total_usdt as int, ico.total_usdt as int, m.config.ico_total_reward as int) <= u128::MAX
                    }
                    &&& (m.book_of(who, c, index) is Some && m.book_of(who, c, index)->0.is_already_get_reward != Some(true)) ==> {
                        let b = m.book_of(who, c, index)->0;
                        let av = (ico.total_usdt / 10) as int;
                        &&& ico.total_usdt != 0
                        &&& b.tags.len() > 0 ==> av > 0
                        &&& forall|i: int| 0 <= i < b.tags.len() ==> crate::reward::tag_classifiable(#[trigger] b.tags[i], av)
                        &&& crate::reward::weighted_sum(crate::reward::classify_all(b.tags, av)) <= u128::MAX
                        &&& spec_user_reward_of(ico, b, spec_project_reward(m, ico)) <= u128::MAX
                    }
                }
            },
        },
    }
}

impl IcoModule {
    /// Marks the book of offering `(c, index)` kept by `who` as rewarded,
    /// dropping it when all of it was released too.
    fn mark_reward_taken(&mut self, who: AccountId, c: CurrencyId, index: u32)
        ensures
            final(self).unchanged_except(old(self), Touched { assets: true, ..touched_none() }),
            final(self).assets_of(who) == spec_mark_rewarded(old(self).assets_of(who), c, index),
            final(self).assets_same_except(old(self), who),
    {
        let ghost s = old(self).assets_of(who);
        let mut v: Vec<UnRelease> = match self.unrelease_assets.remove(&who) {
            Some(v) => v,
            None => Vec::new(),
        };
        assert(v@.map_values(|u: UnRelease| u@) =~= s);
        let found = find_asset(&v, c, index);
        proof { lemma_asset_pos_facts(s, c, index); }
        match found {
            Some(pos) => {
                let mut info = v.swap_remove(pos);
                assert(v@.map_values(|u: UnRelease| u@) =~= seq_swap_remove(s, pos as int));
                assert(info@ == s[pos as int]);
                info.is_already_get_reward = Some(true);
                let ghost base = v@.map_values(|u: UnRelease| u@);
                if info.released != info.total {
                    v.push(info);
                    assert(v@.map_values(|u: UnRelease| u@) =~= base.push(info@));
                }
            },
            None => {},
        }
        self.unrelease_assets.insert(who, v);
        assert(self.unrelease_assets@ =~= old(self).unrelease_assets@.insert(who, v));
    }
}

impl IcoModule {
    /// The runtime moves to block `n`.
    pub fn set_block_number(&mut self, n: BlockNumber)
        requires
            old(self).wf(),
        ensures
            final(self).wf(),
            final(self).block_number == n,
            ({
                &&& final(self).config == old(self).config
                &&& final(self).metadata@ == old(self).metadata@
                &&& final(self).ledger@ == old(self).ledger@
                &&& final(self).pending_ico@ == old(self).pending_ico@
                &&& final(self).ico@ == old(self).ico@
                &&& final(self).unrelease_assets@ == old(self).unrelease_assets@
                &&& final(self).request_release_info@ == old(self).request_release_info@
                &&& final(self).ico_locks@ == old(self).ico_locks@
                &&& final(self).total_usdt == old(self).total_usdt
                &&& final(self).total_num == old(self).total_num
                &&& final(self).ico_rewards@ == old(self).ico_rewards@
                &&& final(self).indexs@ == old(self).indexs@
                &&& final(self).remain_amount_is_already_unserve@ == old(self).remain_amount_is_already_unserve@
                &&& final(self).ico_min_usdt_amount == old(self).ico_min_usdt_amount
                &&& final(self).ico_max_usdt_amount == old(self).ico_max_usdt_amount
                &&& final(self).events@ == old(self).events@
            }),
    {
        self.block_number = n;
    }

    /// At the end of every block the expired release requests are dropped
    /// and their pledges slashed.
    pub fn on_finalize(&mut self, n: BlockNumber)
        requires
            old(self).wf(),
            forall|j: int| 0 <= j < old(self).request_release_info@.len() ==>
                (#[trigger] old(self).request_release_info@[j]).request_time + old(self).config.request_expire <= u64::MAX,
        ensures
            final(self).wf(),
            final(self).unchanged_except(old(self), Touched { ledger: true, requests: true, ..touched_none() }),
            final(self).request_release_info@ == requests_kept(old(self).request_release_info@, old(self).block_number, old(self).config.request_expire),
            final(self).ledger@ == slash_expired(old(self).ledger@, old(self).config.native_currency_id, old(self).request_release_info@,
                old(self).block_number, old(self).config.request_expire),
    {
        self.remove_request_release_info(None, 0, true);
    }

    /// An account frees what its time locks in asset `c` let go by now.
    pub fn unlock(&mut self, origin: Origin, c: CurrencyId) -> (r: Result<(), DispatchError>)
        requires
            old(self).wf(),
            signer(origin) is Some ==> locks_released(old(self).block_number, old(self).locks_of(signer(origin)->0, c)) <= u128::MAX,
        ensures
            final(self).wf(),
            ({
                let who = signer(origin)->0;
                let l0 = old(self).locks_of(who, c);
                let total = locks_released(old(self).block_number, l0);
                &&& r == (if signer(origin) is None {
                    Err(DispatchError::BadOrigin)
                } else if !old(self).ico_locks@.contains_key(lock_key(who, c)) {
                    Err(DispatchError::Module(Error::LockIsEmpty))
                } else if total == 0 {
                    Err(DispatchError::Module(Error::UnlockAmountIsZero))
                } else {
                    Ok::<(), DispatchError>(())
                })
                &&& r is Err ==> final(self).unchanged_except(old(self), touched_none())
                &&& r is Ok ==> {
                    &&& final(self).unchanged_except(old(self), Touched { ledger: true, locks: true, events: true, ..touched_none() })
                    &&& final(self).ledger@ == spec_unreserve(old(self).ledger@, c, who, total as u128)
                    &&& final(self).locks_of(who, c) == locks_kept(l0.map_values(|l: IcoLock| lock_step(old(self).block_number, l).1))
                    &&& final(self).locks_same_except(old(self), who, c)
                    &&& final(self).events@ == old(self).events@.push(Event::UnlockAsset(c, who, total as u128))
                }
            }),
    {
        let user = match Self::ensure_signed(origin) {
            Ok(u) => u,
            Err(e) => { return Err(e); },
        };
        let k = lock_key_of(user, c);
        let mut h = match self.ico_locks.get(&k) {
            None => { return Err(DispatchError::Module(Error::LockIsEmpty)); },
            Some(v) => copy_locks(v),
        };
        proof { assert(old(self).ledger@.dom().contains((c, user))); assert(crate::ledger::account_fits(old(self).ledger@[(c, user)])); }
        let (total, locks) = self.unlock_asset(user, c, &mut h);
        if total == 0 {
            proof { lemma_unreserve_zero(old(self).ledger@, c, user); }
            return Err(DispatchError::Module(Error::UnlockAmountIsZero));
        }
        self.ico_locks.insert(k, locks);
        assert forall|w: AccountId, c2: CurrencyId| (w, c2) != (user, c) implies #[trigger] self.locks_of(w, c2) == old(self).locks_of(w, c2) by {
            if lock_key(w, c2) == k {
                lemma_lock_key_injective(w, c2, user, c);
            }
        }
        self.events.push(Event::UnlockAsset(c, user, total));
        Ok(())
    }

    /// A participant of an ended offering `(c, index)` claims its reward in
    /// the native currency, once. The offering is counted into the
    /// historical total on the first claim made of it, whoever makes it.
    pub fn get_reward(&mut self, origin: Origin, c: CurrencyId, index: u32) -> (r: Result<(), DispatchError>)
        requires
            old(self).wf(),
            reward_defined(old(self), origin, c, index),
        ensures
            final(self).wf(),
            ({
                let who = signer(origin)->0;
                let ico = old(self).ico_of(c, index)->0;
                let expired = ico.is_terminated || ico.start_time->0 + ico.ico_duration < old(self).block_number;
                let b = old(self).book_of(who, c, index)->0;
                let pr = spec_project_reward(old(self), ico);
                let counted = old(self).ico_rewards@.contains_key(ico_key(c, index));
                let reward = spec_user_reward_of(ico, b, pr) as u128;
                let native = old(self).config.native_currency_id;
                let started = signer(origin) is Some && old(self).ico_of(c, index) is Some && expired;
                &&& r == (if signer(origin) is None {
                    Err(DispatchError::BadOrigin)
                } else if old(self).ico_of(c, index) is None {
                    Err(DispatchError::Module(Error::IcoNotExists))
                } else if !expired {
                    Err(DispatchError::Module(Error::IcoNotExpireOrTerminated))
                } else if old(self).book_of(who, c, index) is None {
                    Err(DispatchError::Module(Error::NotIcoMember))
                } else if b.is_already_get_reward == Some(true) {
                    Err(DispatchError::Module(Error::AlreadyGetReward))
                } else if !(reward > 0) {
                    Err(DispatchError::Module(Error::RewardIsZero))
                } else {
                    Ok::<(), DispatchError>(())
                })
                &&& !started ==> final(self).unchanged_except(old(self), touched_none())
                &&& started ==> {
                    &&& final(self).total_num == old(self).total_num
                    &&& counted ==> final(self).total_usdt == old(self).total_usdt
                        && final(self).ico_rewards@ == old(self).ico_rewards@
                    &&& !counted ==> final(self).total_usdt == crate::reward::spec_history_after(old(self).total_usdt as int, ico.total_usdt as int)
                        && final(self).ico_rewards@ == old(self).ico_rewards@.insert(ico_key(c, index), pr as u128)
                }
                &&& r is Err && started ==> final(self).unchanged_except(old(self), Touched { totals: true, rewards: true, ..touched_none() })
                &&& r is Ok ==> {
                    let acct = old(self).account(native, who);
                    &&& final(self).unchanged_except(old(self), Touched {
                        ledger: true, totals: true, rewards: true, assets: true, events: true, ..touched_none()
                    })
                    &&& final(self).ledger@ == if acct.free + acct.reserved + reward <= u128::MAX {
                        old(self).ledger@.insert((native, who), AccountData { free: (acct.free + reward) as u128, ..acct })
                    } else {
                        old(self).ledger@
                    }
                    &&& final(self).assets_of(who) == spec_mark_rewarded(old(self).assets_of(who), c, index)
                    &&& final(self).assets_same_except(old(self), who)
                    &&& final(self).events@ == old(self).events@.push(Event::GetReward(c, index, who, reward))
                }
            }),
    {
        let user = match Self::ensure_signed(origin) {
            Ok(u) => u,
            Err(e) => { return Err(e); },
        };
        let ico = match self.take_ico(c, index) {
            Some(v) => v,
            None => {
                assert(self.ico@ =~= old(self).ico@);
                return Err(DispatchError::Module(Error::IcoNotExists));
            },
        };
        proof { lemma_ico_key_injective(c, index, ico.currency_id, ico.index->0); }
        if !self.is_ico_expire(&ico) {
            self.put_ico(c, index, ico);
            assert(self.ico@ =~= old(self).ico@);
            return Err(DispatchError::Module(Error::IcoNotExpireOrTerminated));
        }
        let total_reward = self.calculate_total_reward(&ico);
        let reward = match self.get_unrelease_assets(user, c, index) {
            None => {
                self.put_ico(c, index, ico);
                assert(self.ico@ =~= old(self).ico@);
                return Err(DispatchError::Module(Error::NotIcoMember));
            },
            Some(info) => {
                match info.is_already_get_reward {
                    Some(taken) => {
                        if taken {
                            self.put_ico(c, index, ico);
                            assert(self.ico@ =~= old(self).ico@);
                            return Err(DispatchError::Module(Error::AlreadyGetReward));
                        }
                    },
                    None => {},
                }
                let ghost b = info@;
                proof { crate::reward::lemma_classify_numbered(b.tags, (ico.total_usdt / 10) as int); }
                let classify = crate::reward::classify_user_amount(ico.total_usdt, &info.tags);
                crate::reward::caculate_user_reward(&classify, ico.total_usdt, total_reward)
            },
        };
        if !(reward > 0) {
            self.put_ico(c, index, ico);
            assert(self.ico@ =~= old(self).ico@);
            return Err(DispatchError::Module(Error::RewardIsZero));
        }
        let native = self.config.native_currency_id;
        let _ = self.ledger.deposit_creating(native, user, reward);
        let ghost pre = *self;
        self.mark_reward_taken(user, c, index);
        proof {
            crate::laws::lemma_books_stay_unique(pre.assets_of(user), false, c, 0, index, 0, 0, false, None);
            self.lemma_books_unique_after(&pre, user, user);
        }
        self.put_ico(c, index, ico);
        assert(self.ico@ =~= old(self).ico@);
        self.events.push(Event::GetReward(c, index, user, reward));
        Ok(())
    }
}

impl IcoModule {
    /// The offerings waiting for approval.
    pub fn pending_ico(&self) -> (r: &Vec<PendingInfo>)
        ensures
            r@ == self.pending_ico@,
    {
        &self.pending_ico
    }

    /// Offering `(c, index)`, if it runs.
    pub fn ico(&self, c: CurrencyId, index: u32) -> (r: Option<&IcoInfo>)
        ensures
            match r {
                Some(v) => self.ico_of(c, index) == Some(*v),
                None => self.ico_of(c, index) is None,
            },
    {
        self.get_ico(c, index)
    }

    /// The books of account `who`.
    pub fn ico_assets_info(&self, who: AccountId) -> (r: Option<&Vec<UnRelease>>)
        ensures
            match r {
                Some(v) => self.unrelease_assets@.contains_key(who) && *v == self.unrelease_assets@[who],
                None => !self.unrelease_assets@.contains_key(who),
            },
    {
        self.unrelease_assets.get(&who)
    }

    /// The open release requests.
    pub fn release_info(&self) -> (r: &Vec<Release>)
        ensures
            r@ == self.request_release_info@,
    {
        &self.request_release_info
    }

    /// The time locks of account `who` in asset `c`, if any were stored.
    pub fn locks(&self, who: AccountId, c: CurrencyId) -> (r: Option<&Vec<IcoLock>>)
        ensures
            match r {
                Some(v) => self.ico_locks@.contains_key(lock_key(who, c)) && v@ == self.locks_of(who, c),
                None => !self.ico_locks@.contains_key(lock_key(who, c)),
            },
    {
        let k = lock_key_of(who, c);
        self.ico_locks.get(&k)
    }

    /// The historical US dollar total counted by reward claims.
    pub fn total_usdt(&self) -> (r: Balance)
        ensures
            r == self.total_usdt,
    {
        self.total_usdt
    }

    /// The number of offerings ever approved.
    pub fn total_num(&self) -> (r: u32)
        ensures
            r == self.total_num,
    {
        self.total_num
    }

    /// The numbers of the offerings of asset `c`, if any were stored.
    pub fn indexes(&self, c: CurrencyId) -> (r: Option<&Vec<u32>>)
        ensures
            match r {
                Some(v) => self.indexs@.contains_key(c) && v@ == self.indexes_of(c),
                None => !self.indexs@.contains_key(c),
            },
    {
        self.indexs.get(&c)
    }
}
} // verus!
