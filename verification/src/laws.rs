//! Properties that hold across the offering rules' operations.

use vstd::prelude::*;
use crate::arith::{spec_mul_div, spec_percent_of};
use crate::ledger::{
    AccountData, account_fits, spec_can_withdraw, spec_reserve, spec_slash_reserved, spec_transfer,
    spec_transfer_result, spec_unreserve,
};
use crate::pallet::{
    IcoModule, asset_pos, lemma_asset_pos_facts, locks_kept, locks_released, lock_step, requests_kept, request_expired,
    seq_swap_remove, slash_expired, spec_mark_rewarded, spec_new_book, spec_swap, spec_swap_amount, spec_update_assets,
    spec_updated_book, spec_user_amount_satisfy, should_release, spec_initiate_checks, spec_total_ico_amount,
};
use crate::reward::{sat_sub, spec_user_reward, weighted_sum};
use crate::types::{
    AccountId, Balance, BlockNumber, CurrencyId, DispatchError, Error, IcoInfo, IcoLock, IcoParameters, Release,
    UnReleaseView,
};

verus! {

/// Reserving an amount and unreserving it again gives the holding back
/// unchanged: a pledge that is returned in full costs nothing.
pub proof fn lemma_reserve_unreserve_round_trip(m: Map<(CurrencyId, AccountId), AccountData>, c: CurrencyId, who: AccountId, amount: Balance)
    requires
        m.dom().contains((c, who)),
        account_fits(m[(c, who)]),
        spec_can_withdraw(m[(c, who)], amount) is Ok,
    ensures
        spec_unreserve(spec_reserve(m, c, who, amount), c, who, amount) == m,
{
    assert(spec_unreserve(spec_reserve(m, c, who, amount), c, who, amount) =~= m);
}

/// Withdrawing a release request costs exactly half its pledge (rounded
/// down): reserving the pledge, slashing half and unreserving the rest
/// leaves the free balance lower by that half and the reserve as it was.
pub proof fn lemma_cancel_costs_half_pledge(m: Map<(CurrencyId, AccountId), AccountData>, native: CurrencyId, who: AccountId, pledge: Balance)
    requires
        m.dom().contains((native, who)),
        account_fits(m[(native, who)]),
        spec_can_withdraw(m[(native, who)], pledge) is Ok,
    ensures
        spec_unreserve(spec_slash_reserved(spec_reserve(m, native, who, pledge), native, who, pledge / 2), native, who, (pledge - pledge / 2) as u128)
            == m.insert((native, who), AccountData { free: (m[(native, who)].free - pledge / 2) as u128, ..m[(native, who)] }),
{
    let r = spec_unreserve(spec_slash_reserved(spec_reserve(m, native, who, pledge), native, who, pledge / 2), native, who, (pledge - pledge / 2) as u128);
    assert(r =~= m.insert((native, who), AccountData { free: (m[(native, who)].free - pledge / 2) as u128, ..m[(native, who)] }));
}

/// Rejecting a pending offering burns exactly the initiator's pledge and
/// gives back every offered token: after the two reserves of the request
/// and the slash and unreserve of the rejection, only the native free
/// balance is lower, by the pledge.
pub proof fn lemma_reject_burns_pledge(
    m: Map<(CurrencyId, AccountId), AccountData>,
    native: CurrencyId,
    c: CurrencyId,
    who: AccountId,
    pledge: Balance,
    offered: Balance,
)
    requires
        native != c,
        m.dom().contains((native, who)),
        m.dom().contains((c, who)),
        account_fits(m[(native, who)]),
        account_fits(m[(c, who)]),
        spec_can_withdraw(m[(native, who)], pledge) is Ok,
        spec_can_withdraw(m[(c, who)], offered) is Ok,
    ensures
        spec_unreserve(
            spec_slash_reserved(spec_reserve(spec_reserve(m, native, who, pledge), c, who, offered), native, who, pledge),
            c, who, offered,
        ) == m.insert((native, who), AccountData { free: (m[(native, who)].free - pledge) as u128, ..m[(native, who)] }),
{
    let r = spec_unreserve(
        spec_slash_reserved(spec_reserve(spec_reserve(m, native, who, pledge), c, who, offered), native, who, pledge),
        c, who, offered,
    );
    assert(r =~= m.insert((native, who), AccountData { free: (m[(native, who)].free - pledge) as u128, ..m[(native, who)] }));
}

/// A transfer moves free balance between two accounts without creating or
/// destroying any: their free balances add up as before, reserves and all
/// other holdings are untouched.
pub proof fn lemma_transfer_conserves(m: Map<(CurrencyId, AccountId), AccountData>, c: CurrencyId, from: AccountId, to: AccountId, amount: Balance)
    requires
        m.dom().contains((c, from)),
        m.dom().contains((c, to)),
        spec_transfer_result(m, c, from, to, amount) is Ok,
    ensures
        ({
            let m2 = spec_transfer(m, c, from, to, amount);
            &&& m2[(c, from)].free + m2[(c, to)].free == m[(c, from)].free + m[(c, to)].free
            &&& m2[(c, from)].reserved == m[(c, from)].reserved
            &&& m2[(c, to)].reserved == m[(c, to)].reserved
            &&& forall|k: (CurrencyId, AccountId)| k != (c, from) && k != (c, to) ==> #[trigger] m2[k] == m[k]
        }),
{
}

/// Exchanging project tokens back into exchange tokens never gives more
/// than was paid for them: the fixed-ratio exchange rounds down both ways,
/// and gives exactly the payment back when the first exchange is exact.
pub proof fn lemma_swap_round_trip(amount: Balance, total_ico: Balance, total_exchange: Balance)
    requires
        total_ico != 0,
        total_exchange != 0,
        spec_swap_amount(true, amount, total_ico, total_exchange) <= u128::MAX,
    ensures
        spec_swap_amount(false, spec_swap_amount(true, amount, total_ico, total_exchange) as u128, total_ico, total_exchange) <= amount,
        (amount as int * total_ico as int) % (total_exchange as int) == 0 ==> spec_swap_amount(false,
            spec_swap_amount(true, amount, total_ico, total_exchange) as u128, total_ico, total_exchange) == amount,
{
    let a = amount as int;
    let i = total_ico as int;
    let e = total_exchange as int;
    let p = a * i / e;
    assert(p * e <= a * i) by (nonlinear_arith) requires p == a * i / e, e > 0, a >= 0, i >= 0;
    assert(p >= 0) by (nonlinear_arith) requires p == a * i / e, e > 0, a >= 0, i >= 0;
    assert((p * e) / i <= a) by (nonlinear_arith) requires p * e <= a * i, i > 0, p >= 0, e > 0;
    assert(spec_mul_div(p, e, i) == (p * e) / i);
    if (a * i) % e == 0 {
        assert(p * e == a * i) by (nonlinear_arith) requires p == a * i / e, (a * i) % e == 0, e > 0;
        assert((a * i) / i == a) by (nonlinear_arith) requires i > 0;
    }
}

/// The fixed-ratio exchange is monotone: paying more never gives less, in
/// either direction.
pub proof fn lemma_swap_monotone(is_main: bool, a1: Balance, a2: Balance, total_ico: Balance, total_exchange: Balance)
    requires
        a1 <= a2,
        is_main ==> total_exchange != 0,
        !is_main ==> total_ico != 0,
    ensures
        spec_swap_amount(is_main, a1, total_ico, total_exchange) <= spec_swap_amount(is_main, a2, total_ico, total_exchange),
{
    let i = total_ico as int;
    let e = total_exchange as int;
    if is_main {
        assert((a1 as int) * i / e <= (a2 as int) * i / e) by (nonlinear_arith) requires a1 <= a2, i >= 0, e > 0, a1 >= 0;
    } else {
        assert((a1 as int) * e / i <= (a2 as int) * e / i) by (nonlinear_arith) requires a1 <= a2, e >= 0, i > 0, a1 >= 0;
    }
}

/// Unlocking drops every time lock that has been fully freed: each lock
/// that remains still holds something.
pub proof fn lemma_locks_kept_hold_something(s: Seq<IcoLock>)
    ensures
        forall|j: int| 0 <= j < locks_kept(s).len() ==>
            (#[trigger] locks_kept(s)[j]).total_amount != locks_kept(s)[j].unlock_amount,
    decreases s.len(),
{
    if s.len() > 0 {
        lemma_locks_kept_hold_something(s.drop_last());
        let k = locks_kept(s.drop_last());
        if s.last().total_amount != s.last().unlock_amount {
            assert forall|j: int| 0 <= j < k.push(s.last()).len() implies
                (#[trigger] k.push(s.last())[j]).total_amount != k.push(s.last())[j].unlock_amount by {
                if j < k.len() {
                    assert(k.push(s.last())[j] == k[j]);
                }
            }
        }
    }
}

/// A time lock frees at most what it holds, and never records more as
/// freed than it holds.
pub proof fn lemma_lock_step_bounded(now: BlockNumber, l: IcoLock)
    ensures
        lock_step(now, l).0 <= l.total_amount,
        l.unlock_duration != 0 ==> lock_step(now, l).1.unlock_amount <= l.total_amount,
{
}

/// The end-of-block cleanup keeps no expired request.
pub proof fn lemma_requests_kept_unexpired(s: Seq<Release>, now: BlockNumber, expire: BlockNumber)
    ensures
        forall|j: int| 0 <= j < requests_kept(s, now, expire).len() ==>
            !request_expired(#[trigger] requests_kept(s, now, expire)[j], now, expire),
    decreases s.len(),
{
    if s.len() > 0 {
        lemma_requests_kept_unexpired(s.drop_last(), now, expire);
        let k = requests_kept(s.drop_last(), now, expire);
        if !request_expired(s.last(), now, expire) {
            assert forall|j: int| 0 <= j < k.push(s.last()).len() implies
                !request_expired(#[trigger] k.push(s.last())[j], now, expire) by {
                if j < k.len() {
                    assert(k.push(s.last())[j] == k[j]);
                }
            }
        }
    }
}

/// A successful participation moves exactly what it should: the buyer's
/// free exchange tokens drop by the amount paid, the initiator's reserve of
/// exchange tokens grows by it, and the matching project tokens move from
/// the initiator's reserve to the buyer's.
pub proof fn lemma_join_moves_funds(
    m: Map<(CurrencyId, AccountId), AccountData>,
    native: CurrencyId,
    who: AccountId,
    amount: Balance,
    ico: IcoInfo,
)
    requires
        who != ico.initiator,
        ico.exchange_token != ico.currency_id,
        forall|k: (CurrencyId, AccountId)| #[trigger] m.dom().contains(k),
        forall|k: (CurrencyId, AccountId)| #[trigger] account_fits(m[k]),
        ico.total_exchange_amount != 0,
        spec_swap_amount(true, amount, ico.total_ico_amount, ico.total_exchange_amount) <= u128::MAX,
        spec_swap(m, native, who, amount, ico).1 is Ok,
    ensures
        ({
            let m2 = spec_swap(m, native, who, amount, ico).0;
            let p = spec_swap(m, native, who, amount, ico).1->Ok_0;
            let ex = ico.exchange_token;
            let pc = ico.currency_id;
            let init = ico.initiator;
            &&& p == spec_swap_amount(true, amount, ico.total_ico_amount, ico.total_exchange_amount)
            &&& m2[(ex, who)] == AccountData { free: (m[(ex, who)].free - amount) as u128, ..m[(ex, who)] }
            &&& m2[(ex, init)] == AccountData { reserved: (m[(ex, init)].reserved + amount) as u128, ..m[(ex, init)] }
            &&& m2[(pc, init)] == AccountData { reserved: (m[(pc, init)].reserved - p) as u128, ..m[(pc, init)] }
            &&& m2[(pc, who)] == AccountData { reserved: (m[(pc, who)].reserved + p) as u128, ..m[(pc, who)] }
        }),
{
    let ex = ico.exchange_token;
    let pc = ico.currency_id;
    let init = ico.initiator;
    assert(account_fits(m[(ex, init)]));
    assert(account_fits(m[(ex, who)]));
    assert(account_fits(m[(pc, init)]));
    assert(account_fits(m[(pc, who)]));
    assert(spec_mul_div(amount as int, ico.total_ico_amount as int, ico.total_exchange_amount as int) >= 0) by (nonlinear_arith)
        requires ico.total_exchange_amount > 0;
    let p = spec_swap_amount(true, amount, ico.total_ico_amount, ico.total_exchange_amount) as u128;
    let m1 = spec_transfer(m, ex, who, init, amount);
    let m2 = spec_reserve(m1, ex, init, amount);
    assert(m1[(pc, init)] == m[(pc, init)]);
    assert(m1[(pc, who)] == m[(pc, who)]);
    assert(m2[(pc, init)] == m[(pc, init)]);
    assert(m2[(pc, who)] == m[(pc, who)]);
    assert(m2[(ex, who)] == m1[(ex, who)]);
    let m3 = crate::ledger::spec_repatriate(m2, pc, init, who, p, crate::ledger::BalanceStatus::Reserved);
    assert(spec_swap(m, native, who, amount, ico).0 == m3);
    assert(spec_swap(m, native, who, amount, ico).1 == Ok::<Balance, crate::types::DispatchError>(p));
    assert(m3[(ex, who)] == m2[(ex, who)]);
    assert(m3[(ex, init)] == m2[(ex, init)]);
    assert(m3[(ex, who)] == AccountData { free: (m[(ex, who)].free - amount) as u128, ..m[(ex, who)] });
    assert(m3[(ex, init)] == AccountData { reserved: (m[(ex, init)].reserved + amount) as u128, ..m[(ex, init)] });
    assert(m3[(pc, init)] == AccountData { reserved: (m[(pc, init)].reserved - p) as u128, ..m[(pc, init)] });
    assert(m3[(pc, who)] == AccountData { reserved: (m[(pc, who)].reserved + p) as u128, ..m[(pc, who)] });
}

/// Running the end-of-block cleanup a second time at the same block changes
/// nothing: the requests it keeps are all unexpired, so none is dropped and
/// no pledge is slashed again.
pub proof fn lemma_cleanup_idempotent(
    m: Map<(CurrencyId, AccountId), AccountData>,
    native: CurrencyId,
    s: Seq<Release>,
    now: BlockNumber,
    expire: BlockNumber,
)
    ensures
        requests_kept(requests_kept(s, now, expire), now, expire) == requests_kept(s, now, expire),
        slash_expired(m, native, requests_kept(s, now, expire), now, expire) == m,
{
    lemma_requests_kept_unexpired(s, now, expire);
    lemma_unexpired_untouched(m, native, requests_kept(s, now, expire), now, expire);
}

proof fn lemma_unexpired_untouched(
    m: Map<(CurrencyId, AccountId), AccountData>,
    native: CurrencyId,
    s: Seq<Release>,
    now: BlockNumber,
    expire: BlockNumber,
)
    requires
        forall|j: int| 0 <= j < s.len() ==> !request_expired(#[trigger] s[j], now, expire),
    ensures
        requests_kept(s, now, expire) == s,
        slash_expired(m, native, s, now, expire) == m,
    decreases s.len(),
{
    if s.len() > 0 {
        let init = s.drop_last();
        assert forall|j: int| 0 <= j < init.len() implies !request_expired(#[trigger] init[j], now, expire) by {
            assert(init[j] == s[j]);
        }
        lemma_unexpired_untouched(m, native, init, now, expire);
        assert(!request_expired(s[s.len() - 1], now, expire));
        assert(init.push(s.last()) =~= s);
    }
}

/// Unlocking twice at the same block frees nothing the second time: every
/// lock kept by the first unlock has already freed all its elapsed periods.
/// This holds of locks with a period; a lock without one frees its whole
/// rest on every unlock.
pub proof fn lemma_unlock_twice_frees_nothing(now: BlockNumber, s: Seq<IcoLock>)
    requires
        forall|j: int| 0 <= j < s.len() ==> (#[trigger] s[j]).unlock_duration != 0,
    ensures
        locks_released(now, locks_kept(s.map_values(|l: IcoLock| lock_step(now, l).1))) == 0,
    decreases s.len(),
{
    let t = s.map_values(|l: IcoLock| lock_step(now, l).1);
    if s.len() > 0 {
        let init = s.drop_last();
        assert forall|j: int| 0 <= j < init.len() implies (#[trigger] init[j]).unlock_duration != 0 by {
            assert(init[j] == s[j]);
        }
        lemma_unlock_twice_frees_nothing(now, init);
        assert(t.drop_last() =~= init.map_values(|l: IcoLock| lock_step(now, l).1));
        let k = locks_kept(t.drop_last());
        assert(s[s.len() - 1].unlock_duration != 0);
        assert(t.last() == lock_step(now, s.last()).1);
        assert(lock_step(now, t.last()).0 == 0);
        if t.last().total_amount != t.last().unlock_amount {
            assert(k.push(t.last()).drop_last() =~= k);
        }
    }
}

/// The sum of the amounts of the first `k` contributions of a book.
pub open spec fn tag_prefix_sum(tags: Seq<(Balance, Balance)>, k: int) -> int
    decreases k,
{
    if k <= 0 { 0 } else { tag_prefix_sum(tags, k - 1) + tags[k - 1].0 }
}

/// A participant's book records its contributions with their running total:
/// each contribution's tag is the sum of all contributions up to it, and the
/// last tag is the book's US dollar total.
pub open spec fn tags_consistent(b: UnReleaseView) -> bool {
    &&& b.tags.len() > 0
    &&& forall|k: int| 0 <= k < b.tags.len() ==> (#[trigger] b.tags[k]).1 == tag_prefix_sum(b.tags, k + 1)
    &&& b.tags.last().1 == b.total_usdt
}

proof fn lemma_tag_prefix_sum_push(tags: Seq<(Balance, Balance)>, t: (Balance, Balance), k: int)
    requires
        0 <= k <= tags.len(),
    ensures
        tag_prefix_sum(tags.push(t), k) == tag_prefix_sum(tags, k),
    decreases k,
{
    if k > 0 {
        lemma_tag_prefix_sum_push(tags, t, k - 1);
        assert(tags.push(t)[k - 1] == tags[k - 1]);
    }
}

/// A participant's book keeps its contributions with their running total:
/// a new book starts with its first contribution, a further participation
/// appends the contribution with the new total (as long as the total does
/// not saturate), and a release leaves contributions and total alone.
pub proof fn lemma_books_keep_running_total(
    o: UnReleaseView,
    c: CurrencyId,
    exchange_token: CurrencyId,
    index: u32,
    total: Balance,
    total_usdt: Balance,
    is_terminated: Option<bool>,
)
    ensures
        tags_consistent(spec_new_book(false, c, exchange_token, index, total, total_usdt)),
        tags_consistent(o) && o.total_usdt + total_usdt <= u128::MAX
            ==> tags_consistent(spec_updated_book(o, false, total, total_usdt, true, is_terminated)),
        spec_updated_book(o, false, total, total_usdt, false, is_terminated).tags == o.tags,
        spec_updated_book(o, false, total, total_usdt, false, is_terminated).total_usdt == o.total_usdt,
{
    let nb = spec_new_book(false, c, exchange_token, index, total, total_usdt);
    assert(tag_prefix_sum(nb.tags, 1) == total_usdt) by {
        assert(tag_prefix_sum(nb.tags, 0) == 0);
    }
    if tags_consistent(o) && o.total_usdt + total_usdt <= u128::MAX {
        let n = spec_updated_book(o, false, total, total_usdt, true, is_terminated);
        let len = o.tags.len() as int;
        let t = (total_usdt, (o.total_usdt + total_usdt) as u128);
        assert(n.tags == o.tags.push(t));
        assert forall|k: int| 0 <= k < n.tags.len() implies (#[trigger] n.tags[k]).1 == tag_prefix_sum(n.tags, k + 1) by {
            if k < len {
                lemma_tag_prefix_sum_push(o.tags, t, k + 1);
                assert(n.tags[k] == o.tags[k]);
            } else {
                lemma_tag_prefix_sum_push(o.tags, t, len);
                assert(o.tags[len - 1].1 == tag_prefix_sum(o.tags, len));
            }
        }
    }
}

/// Stepping a time lock at one block and then at a later one frees, in
/// all, what stepping it at the later block alone frees, and leaves the same
/// lock: unlocking is independent of how often it is asked for. This holds
/// of locks with a period that have not recorded more as freed than their
/// schedule allows at the earlier block.
pub proof fn lemma_lock_steps_compose(t1: BlockNumber, t2: BlockNumber, l: IcoLock)
    requires
        l.unlock_duration != 0,
        t1 <= t2,
        l.unlock_amount <= lock_step(t1, l).1.unlock_amount,
    ensures
        lock_step(t2, lock_step(t1, l).1).1 == lock_step(t2, l).1,
        lock_step(t1, l).0 + lock_step(t2, lock_step(t1, l).1).0 == lock_step(t2, l).0,
{
    let d = l.unlock_duration as int;
    let time1 = sat_sub(t1 as int, l.start_block as int);
    let time2 = sat_sub(t2 as int, l.start_block as int);
    assert(time1 <= time2);
    assert(time1 / d <= time2 / d) by (nonlinear_arith) requires 0 <= time1 <= time2, d > 0;
    let n1 = if time1 / d > u32::MAX { u32::MAX as int } else { time1 / d };
    let n2 = if time2 / d > u32::MAX { u32::MAX as int } else { time2 / d };
    let per = l.per_duration_unlock_amount as int;
    assert(n1 * per <= n2 * per) by (nonlinear_arith) requires 0 <= n1 <= n2, per >= 0;
    assert(n1 * per >= 0) by (nonlinear_arith) requires 0 <= n1, per >= 0;
}

/// A participation (of a nonzero payment, as every admitted one is) is
/// admitted only within what the offering still has to raise: what the initiator has raised plus the new payment stays within
/// the offering's exchange side, and the initiator's book grows by exactly
/// the payment.
pub proof fn lemma_join_within_room(m: IcoModule, ico: IcoInfo, amount: Balance, c: CurrencyId, index: u32, who: AccountId, usdt: Balance)
    requires
        amount != 0,
        spec_user_amount_satisfy(&m, ico, amount, c, index, who) is Ok,
    ensures
        m.spec_user_ico_amount(ico.currency_id, index, ico.initiator).0 + amount <= ico.total_exchange_amount,
        m.book_of(ico.initiator, ico.currency_id, index) is Some ==>
            spec_updated_book(m.book_of(ico.initiator, ico.currency_id, index)->0, true, amount, usdt, true, None).total
                == m.spec_user_ico_amount(ico.currency_id, index, ico.initiator).0 + amount,
        spec_new_book(true, ico.currency_id, ico.exchange_token, index, amount, usdt).total == amount,
{
}

/// No two books of a list are about the same offering.
pub open spec fn books_unique(s: Seq<UnReleaseView>) -> bool {
    forall|i: int, j: int| #![trigger s[i], s[j]]
        0 <= i < j < s.len() ==> !(s[i].currency_id == s[j].currency_id && s[i].index == s[j].index)
}

/// The book of offering `(c, index)` in a list of books, if any.
pub open spec fn book_in(s: Seq<UnReleaseView>, c: CurrencyId, index: u32) -> Option<UnReleaseView> {
    match asset_pos(s, c, index) {
        Some(p) => Some(s[p]),
        None => None,
    }
}

proof fn lemma_book_in_at(s: Seq<UnReleaseView>, c: CurrencyId, index: u32, j: int)
    requires
        books_unique(s),
        0 <= j < s.len(),
        s[j].currency_id == c,
        s[j].index == index,
    ensures
        book_in(s, c, index) == Some(s[j]),
{
    lemma_asset_pos_facts(s, c, index);
    match asset_pos(s, c, index) {
        Some(p) => {
            if p < j {
                assert(!(s[p].currency_id == s[j].currency_id && s[p].index == s[j].index));
            } else if p > j {
                assert(!(s[j].currency_id == c && s[j].index == index));
            }
        },
        None => {
            assert(!(s[j].currency_id == c && s[j].index == index));
        },
    }
}

proof fn lemma_book_in_none(s: Seq<UnReleaseView>, c: CurrencyId, index: u32)
    requires
        forall|j: int| 0 <= j < s.len() ==> !(#[trigger] s[j].currency_id == c && s[j].index == index),
    ensures
        book_in(s, c, index) is None,
{
    lemma_asset_pos_facts(s, c, index);
    if asset_pos(s, c, index) is Some {
        let p = asset_pos(s, c, index)->0;
        assert(!(s[p].currency_id == c && s[p].index == index));
    }
}

/// The books after taking out the book of `(c, index)` (the last book
/// filling its place) and appending `b`, or nothing.
pub open spec fn books_replaced(s: Seq<UnReleaseView>, c: CurrencyId, index: u32, b: UnReleaseView, append: bool) -> Seq<UnReleaseView> {
    let base = match asset_pos(s, c, index) { Some(p) => seq_swap_remove(s, p), None => s };
    if append { base.push(b) } else { base }
}

/// Replacing the book of `(c, index)` by `b`, a book of the same offering,
/// or by nothing, keeps books unique and every other offering's book as it
/// was.
proof fn lemma_replace_book(s: Seq<UnReleaseView>, c: CurrencyId, index: u32, b: UnReleaseView, append: bool)
    requires
        books_unique(s),
        b.currency_id == c,
        b.index == index,
    ensures
        books_unique(books_replaced(s, c, index, b, append)),
        forall|c2: CurrencyId, i2: u32| !(c2 == c && i2 == index)
            ==> #[trigger] book_in(books_replaced(s, c, index, b, append), c2, i2) == book_in(s, c2, i2),
{
    lemma_asset_pos_facts(s, c, index);
    let base = match asset_pos(s, c, index) { Some(p) => seq_swap_remove(s, p), None => s };
    let n = if append { base.push(b) } else { base };
    let len = s.len() as int;
    // where each element of `base` comes from in `s`
    let src = |i: int| match asset_pos(s, c, index) {
        Some(p) => if i == p { len - 1 } else { i },
        None => i,
    };
    assert forall|i: int| 0 <= i < base.len() implies 0 <= #[trigger] src(i) < len && base[i] == s[src(i)]
        && !(s[src(i)].currency_id == c && s[src(i)].index == index) || asset_pos(s, c, index) is None by {
        if asset_pos(s, c, index) is Some {
            let p = asset_pos(s, c, index)->0;
            if i != p && i < p {
                assert(!(s[i].currency_id == c && s[i].index == index));
            } else if i != p {
                assert(!(s[p].currency_id == s[i].currency_id && s[p].index == s[i].index));
            } else {
                assert(!(s[p].currency_id == s[len - 1].currency_id && s[p].index == s[len - 1].index));
            }
        }
    }
    assert forall|i: int| 0 <= i < base.len() implies !(#[trigger] base[i].currency_id == c && base[i].index == index) by {
        if asset_pos(s, c, index) is Some {
            let p = asset_pos(s, c, index)->0;
            if i != p && i < p {
                assert(!(s[i].currency_id == c && s[i].index == index));
            } else if i != p {
                assert(!(s[p].currency_id == s[i].currency_id && s[p].index == s[i].index));
            } else {
                assert(!(s[p].currency_id == s[len - 1].currency_id && s[p].index == s[len - 1].index));
            }
        }
    }
    assert forall|i: int, j: int| #![trigger base[i], base[j]]
        0 <= i < j < base.len() implies !(base[i].currency_id == base[j].currency_id && base[i].index == base[j].index) by {
        let si = src(i);
        let sj = src(j);
        if si < sj {
            assert(!(s[si].currency_id == s[sj].currency_id && s[si].index == s[sj].index));
        } else {
            assert(!(s[sj].currency_id == s[si].currency_id && s[sj].index == s[si].index));
        }
    }
    assert forall|i: int, j: int| #![trigger n[i], n[j]]
        0 <= i < j < n.len() implies !(n[i].currency_id == n[j].currency_id && n[i].index == n[j].index) by {
        if j < base.len() {
            assert(n[i] == base[i] && n[j] == base[j]);
        } else {
            assert(n[i] == base[i]);
        }
    }
    assert forall|c2: CurrencyId, i2: u32| !(c2 == c && i2 == index) implies #[trigger] book_in(n, c2, i2) == book_in(s, c2, i2) by {
        if exists|j: int| 0 <= j < len && #[trigger] s[j].currency_id == c2 && s[j].index == i2 {
            let j = choose|j: int| 0 <= j < len && #[trigger] s[j].currency_id == c2 && s[j].index == i2;
            lemma_book_in_at(s, c2, i2, j);
            let nj = match asset_pos(s, c, index) {
                Some(p) => if j == len - 1 { p } else { j },
                None => j,
            };
            if asset_pos(s, c, index) is Some {
                let p = asset_pos(s, c, index)->0;
                assert(j != p);
            }
            assert(0 <= nj < base.len());
            assert(n[nj] == s[j]);
            lemma_book_in_at(n, c2, i2, nj);
        } else {
            lemma_book_in_none(s, c2, i2);
            assert forall|i: int| 0 <= i < n.len() implies !(#[trigger] n[i].currency_id == c2 && n[i].index == i2) by {
                if i < base.len() {
                    let si = src(i);
                    assert(!(s[si].currency_id == c2 && s[si].index == i2));
                }
            }
            lemma_book_in_none(n, c2, i2);
        }
    }
}

/// An account keeps at most one book per offering: recording a
/// participation or a release, and marking a reward as taken, keep books
/// unique and leave every other offering's book as it was.
pub proof fn lemma_books_stay_unique(
    s: Seq<UnReleaseView>,
    is_initiator: bool,
    c: CurrencyId,
    exchange_token: CurrencyId,
    index: u32,
    total: Balance,
    total_usdt: Balance,
    is_start_join: bool,
    is_terminated: Option<bool>,
)
    requires
        books_unique(s),
    ensures
        books_unique(spec_update_assets(s, is_initiator, c, exchange_token, index, total, total_usdt, is_start_join, is_terminated)),
        forall|c2: CurrencyId, i2: u32| !(c2 == c && i2 == index) ==> #[trigger] book_in(
            spec_update_assets(s, is_initiator, c, exchange_token, index, total, total_usdt, is_start_join, is_terminated), c2, i2)
            == book_in(s, c2, i2),
        books_unique(spec_mark_rewarded(s, c, index)),
        forall|c2: CurrencyId, i2: u32| !(c2 == c && i2 == index) ==> #[trigger] book_in(spec_mark_rewarded(s, c, index), c2, i2)
            == book_in(s, c2, i2),
{
    lemma_asset_pos_facts(s, c, index);
    let book = match asset_pos(s, c, index) {
        Some(p) => spec_updated_book(s[p], is_initiator, total, total_usdt, is_start_join, is_terminated),
        None => spec_new_book(is_initiator, c, exchange_token, index, total, total_usdt),
    };
    let base = match asset_pos(s, c, index) { Some(p) => seq_swap_remove(s, p), None => s };
    let append = !(book.released == book.total && book.is_already_get_reward == Some(true));
    lemma_replace_book(s, c, index, book, append);
    let u = spec_update_assets(s, is_initiator, c, exchange_token, index, total, total_usdt, is_start_join, is_terminated);
    let n = books_replaced(s, c, index, book, append);
    assert(u == n);
    assert forall|c2: CurrencyId, i2: u32| !(c2 == c && i2 == index) implies #[trigger] book_in(u, c2, i2) == book_in(s, c2, i2) by {
        assert(book_in(n, c2, i2) == book_in(s, c2, i2));
    }
    match asset_pos(s, c, index) {
        Some(p) => {
            let b = UnReleaseView { is_already_get_reward: Some(true), ..s[p] };
            lemma_replace_book(s, c, index, b, b.released != b.total);
            let m = books_replaced(s, c, index, b, b.released != b.total);
            assert(spec_mark_rewarded(s, c, index) == m);
            assert forall|c2: CurrencyId, i2: u32| !(c2 == c && i2 == index)
                implies #[trigger] book_in(spec_mark_rewarded(s, c, index), c2, i2) == book_in(s, c2, i2) by {
                assert(book_in(m, c2, i2) == book_in(s, c2, i2));
            }
        },
        None => {
            assert(spec_mark_rewarded(s, c, index) == s);
        },
    }
}

/// A time lock stepped at each block of `blocks` in turn: the amount
/// freed in all, and the lock afterwards.
pub open spec fn lock_steps(l: IcoLock, blocks: Seq<BlockNumber>) -> (int, IcoLock)
    decreases blocks.len(),
{
    if blocks.len() == 0 {
        (0, l)
    } else {
        let (freed, l1) = lock_steps(l, blocks.drop_last());
        (freed + lock_step(blocks.last(), l1).0, lock_step(blocks.last(), l1).1)
    }
}

/// Unlocking a fresh time lock with a period at any number of blocks, in
/// order, frees in all what one unlock at the last block frees: the slices
/// of the periods elapsed by then, up to the whole lock, never more. The
/// lock records exactly what was freed, so it leaves the list of locks
/// exactly when all of it was freed.
pub proof fn lemma_lock_steps_any_number(l: IcoLock, blocks: Seq<BlockNumber>)
    requires
        l.unlock_duration != 0,
        l.unlock_amount == 0,
        blocks.len() > 0,
        forall|i: int, j: int| 0 <= i <= j < blocks.len() ==> blocks[i] <= blocks[j],
    ensures
        lock_steps(l, blocks) == (lock_step(blocks.last(), l).0 as int, lock_step(blocks.last(), l).1),
        lock_steps(l, blocks).0 <= l.total_amount,
        lock_steps(l, blocks).1.unlock_amount == lock_steps(l, blocks).0,
        lock_steps(l, blocks).1.total_amount == l.total_amount,
    decreases blocks.len(),
{
    let n = blocks.len() as int;
    let init = blocks.drop_last();
    let prev = lock_steps(l, init);
    assert(lock_steps(l, blocks) == (prev.0 + lock_step(blocks.last(), prev.1).0, lock_step(blocks.last(), prev.1).1));
    if n == 1 {
        assert(init.len() == 0);
        assert(prev == (0int, l));
    } else {
        assert forall|i: int, j: int| 0 <= i <= j < init.len() implies init[i] <= init[j] by {
            assert(init[i] == blocks[i] && init[j] == blocks[j]);
        }
        lemma_lock_steps_any_number(l, init);
        assert(init.last() == blocks[n - 2]);
        assert(blocks[n - 2] <= blocks[n - 1]);
        lemma_lock_steps_compose(init.last(), blocks.last(), l);
    }
    lemma_lock_step_bounded(blocks.last(), l);
}

/// A percentage rounded to the nearest, a half rounded down, is
/// `(x * parts + 49) / 100`, and grows with the percentage.
proof fn lemma_percent_rounding(p1: int, p2: int, x: int)
    requires
        0 <= p1 <= p2,
        0 <= x,
    ensures
        spec_percent_of(p1, x) == (x * p1 + 49) / 100,
        spec_percent_of(p1, x) <= spec_percent_of(p2, x),
{
    let y1 = x * p1;
    let y2 = x * p2;
    assert(0 <= y1 <= y2) by (nonlinear_arith) requires 0 <= p1 <= p2, 0 <= x, y1 == x * p1, y2 == x * p2;
    assert(y1 / 100 + (if y1 % 100 > 50 { 1int } else { 0int }) == (y1 + 49) / 100);
    assert(y2 / 100 + (if y2 % 100 > 50 { 1int } else { 0int }) == (y2 + 49) / 100);
    assert((y1 + 49) / 100 <= (y2 + 49) / 100);
}

proof fn lemma_one_piece(n: u32, a: u128)
    ensures
        weighted_sum(seq![(n, a)]) == if n <= 5 {
            a + spec_percent_of(50 - (n - 1) * 10, a as int)
        } else if n <= 10 {
            a - spec_percent_of((n - 5) * 10, a as int)
        } else {
            0
        },
{
    let s = seq![(n, a)];
    assert(s.drop_last() =~= Seq::<(u32, u128)>::empty());
    assert(weighted_sum(Seq::<(u32, u128)>::empty()) == 0);
    assert(s.last() == (n, a));
    assert(weighted_sum(s) == weighted_sum(s.drop_last()) + crate::reward::piece_weight(n, a));
}

/// The reward of one piece of `a` in the tenth numbered `n`, in an
/// offering whose total is `total` and whose reward is `reward`: the first
/// five tenths add a bonus of 50, 40, 30, 20 and 10 percent of the piece, the
/// next five cut 10, 20, 30, 40 and 50 percent of it, later tenths earn
/// nothing, and the weighted piece takes its share `reward / total` of the
/// offering's reward, rounded down.
pub proof fn lemma_reward_of_one_piece(n: u32, a: u128, total: u128, reward: u128)
    requires
        1 <= n,
        total > 0,
    ensures
        1 <= n <= 5 ==> spec_user_reward(seq![(n, a)], total as int, reward as int)
            == (a + spec_percent_of(60 - 10 * n, a as int)) * reward / (total as int),
        6 <= n <= 10 ==> spec_user_reward(seq![(n, a)], total as int, reward as int)
            == (a - spec_percent_of(10 * n - 50, a as int)) * reward / (total as int),
        n > 10 ==> spec_user_reward(seq![(n, a)], total as int, reward as int) == 0,
{
    lemma_one_piece(n, a);
}

/// Later tenths never weigh more: the weight of a piece falls as the number
/// of its tenth grows, from a bonus of a half down to a cut of a half, and
/// is never negative.
pub proof fn lemma_later_tenths_weigh_less(n1: u32, n2: u32, a: u128)
    requires
        1 <= n1 <= n2,
    ensures
        0 <= weighted_sum(seq![(n2, a)]) <= weighted_sum(seq![(n1, a)]),
{
    lemma_one_piece(n1, a);
    lemma_one_piece(n2, a);
    if n2 <= 5 {
        lemma_percent_rounding(60 - 10 * n2, 60 - 10 * n1, a as int);
        crate::arith::lemma_percent_of_bounds(60 - 10 * n2, a as int);
    } else if n2 <= 10 {
        crate::arith::lemma_percent_of_bounds(10 * n2 - 50, a as int);
        if n1 <= 5 {
            crate::arith::lemma_percent_of_bounds(60 - 10 * n1, a as int);
        } else {
            lemma_percent_rounding(10 * n1 - 50, 10 * n2 - 50, a as int);
        }
    } else {
        if n1 <= 5 {
            crate::arith::lemma_percent_of_bounds(60 - 10 * n1, a as int);
        } else if n1 <= 10 {
            crate::arith::lemma_percent_of_bounds(10 * n1 - 50, a as int);
        }
    }
}

/// What a release owes in all is the offering's released share of the
/// book's whole total: it does not depend on what was released before, it
/// never exceeds the total, it grows with the share, and at the full share
/// it is the whole total, so a holder who released `r` gets the rest,
/// `total - r`.
pub proof fn lemma_release_owes_share_of_whole_total(ico: IcoInfo, ico2: IcoInfo, b: UnReleaseView, b2: UnReleaseView)
    requires
        b2.total == b.total,
        ico.already_released_proportion@ <= ico2.already_released_proportion@,
        ico2.already_released_proportion@ <= 100,
    ensures
        should_release(ico, b) == should_release(ico, b2),
        should_release(ico, b) <= should_release(ico2, b) <= b.total,
        ico.already_released_proportion@ == 100 ==> should_release(ico, b) == b.total,
        ico.already_released_proportion@ == 100 && b.released <= b.total
            ==> sat_sub(should_release(ico, b) as int, b.released as int) == b.total - b.released,
        ico.already_released_proportion@ == 0 ==> should_release(ico, b) == 0,
{
    lemma_percent_rounding(ico.already_released_proportion@ as int, ico2.already_released_proportion@ as int, b.total as int);
    crate::arith::lemma_percent_of_bounds(ico2.already_released_proportion@ as int, b.total as int);
    crate::arith::lemma_percent_of_bounds(ico.already_released_proportion@ as int, b.total as int);
}

/// The participation check counts the participant's project tokens at the
/// offering's ratio, `held * total_exchange / total_ico` exchange tokens
/// (rounded down), adds the new payment (saturating), and admits the sum
/// only within the offering's per-user bounds; then the payment must fit in
/// what the offering still has to raise.
pub proof fn lemma_participation_check(m: IcoModule, ico: IcoInfo, amount: Balance, c: CurrencyId, index: u32, who: AccountId)
    requires
        ico.total_ico_amount != 0,
        (m.spec_user_ico_amount(c, index, who).0 as int) * (ico.total_exchange_amount as int) / (ico.total_ico_amount as int)
            <= u128::MAX,
    ensures
        ({
            let worth = (m.spec_user_ico_amount(c, index, who).0 as int) * (ico.total_exchange_amount as int)
                / (ico.total_ico_amount as int);
            let sum = if worth + amount > u128::MAX { u128::MAX as int } else { worth + amount };
            let raised = m.spec_user_ico_amount(ico.currency_id, index, ico.initiator).0 as int;
            spec_user_amount_satisfy(&m, ico, amount, c, index, who) == if !(ico.user_min_amount <= sum <= ico.user_max_amount) {
                Err::<bool, DispatchError>(DispatchError::Module(Error::AmountTooLowOrTooBig))
            } else if !(amount == 0 || raised + amount <= ico.total_exchange_amount) {
                Err(DispatchError::Module(Error::AmountTooLow))
            } else {
                Ok(true)
            }
        }),
{
}

/// Every accepted offering is well made: it can be joined at least once,
/// its project token is neither the native currency nor its exchange token,
/// both sides of the exchange are nonzero, the issuance covers the
/// circulation and the circulation the offer, the per-user bounds lie in
/// the system's, it lasts at least a block, a locked share frees something
/// every period of a nonzero length, no other offering of the token waits,
/// and the initiator can reserve the offer. Conversely, any such offering is
/// accepted.
pub proof fn lemma_accepted_offerings_are_well_made(m: IcoModule, info: IcoParameters, who: AccountId)
    ensures
        spec_initiate_checks(&m, &info, who) is Ok <==> {
            &&& info.user_ico_max_count > 0
            &&& info.currency_id != m.config.native_currency_id
            &&& info.exchange_token != info.currency_id
            &&& info.total_exchange_amount != 0 && info.total_ico_amount != 0
            &&& info.total_issuance >= info.total_circulation && info.total_circulation >= info.total_ico_amount
            &&& m.ico_min_usdt_amount <= info.user_min_amount <= info.user_max_amount <= m.ico_max_usdt_amount
            &&& info.ico_duration > 0
            &&& info.lock_proportion@ > 0 ==> info.unlock_duration > 0 && info.per_duration_unlock_amount > 0
            &&& !m.spec_is_pending_ico(info.currency_id)
            &&& spec_can_withdraw(m.account(info.currency_id, who), info.total_ico_amount) is Ok
        },
        spec_initiate_checks(&m, &info, who) is Err ==> spec_initiate_checks(&m, &info, who) != Ok::<bool, DispatchError>(false),
        spec_initiate_checks(&m, &info, who) is Ok ==> spec_initiate_checks(&m, &info, who) == Ok::<bool, DispatchError>(true),
{
}

/// The project tokens all participants got is the offering's project side
/// in proportion to what the initiator raised, rounded down: the largest
/// `r` with `r * total_exchange <= total_ico * raised`. It is what a single
/// payment of the whole raise would buy.
pub proof fn lemma_total_ico_amount_is_share_sold(m: IcoModule, ico: IcoInfo, c: CurrencyId, index: u32)
    requires
        ico.total_exchange_amount != 0,
    ensures
        ({
            let r = spec_total_ico_amount(&m, ico, c, index);
            let raised = m.spec_user_ico_amount(c, index, ico.initiator).0 as int;
            let sold = (ico.total_ico_amount as int) * raised;
            &&& r * (ico.total_exchange_amount as int) <= sold
            &&& sold < (r + 1) * (ico.total_exchange_amount as int)
            &&& r == spec_swap_amount(true, raised as u128, ico.total_ico_amount, ico.total_exchange_amount)
        }),
{
    let raised = m.spec_user_ico_amount(c, index, ico.initiator).0 as int;
    let sold = (ico.total_ico_amount as int) * raised;
    let e = ico.total_exchange_amount as int;
    let r = sold / e;
    assert(r * e <= sold && sold < (r + 1) * e) by (nonlinear_arith) requires r == sold / e, e > 0, sold >= 0;
    assert((ico.total_ico_amount as int) * raised == raised * (ico.total_ico_amount as int)) by (nonlinear_arith);
}

/// Weights add up: the weighted sum of several pieces is the sum of the
/// weights of the pieces taken one by one, so a participant's reward is its
/// pieces' weights added and then shared out.
pub proof fn lemma_weights_add_up(s: Seq<(u32, u128)>, t: Seq<(u32, u128)>)
    ensures
        weighted_sum(s + t) == weighted_sum(s) + weighted_sum(t),
        forall|p: (u32, u128)| #[trigger] weighted_sum(s.push(p)) == weighted_sum(s) + weighted_sum(seq![p]),
    decreases t.len(),
{
    assert forall|p: (u32, u128)| #[trigger] weighted_sum(s.push(p)) == weighted_sum(s) + weighted_sum(seq![p]) by {
        lemma_one_piece(p.0, p.1);
        assert(s.push(p).drop_last() =~= s);
    }
    if t.len() == 0 {
        assert(s + t =~= s);
    } else {
        lemma_weights_add_up(s, t.drop_last());
        assert((s + t).drop_last() =~= s + t.drop_last());
    }
}

} // verus!
