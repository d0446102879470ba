//! How offering contributions turn into rewards: contributions are cut into
//! tenths of the offering's total, earlier tenths weigh more, and the weighted
//! sum sets the reward.

use vstd::prelude::*;
use vstd::arithmetic::power::pow;
use crate::arith::{mul_div, percent_of, pow2_u32, spec_mul_div, spec_percent_of};
use crate::types::Balance;

verus! {

/// `a - b`, or zero when `b` exceeds `a`.
pub open spec fn sat_sub(a: int, b: int) -> int {
    if a >= b { a - b } else { 0 }
}

/// The pieces of the stretch `(start, tag]` cut at the multiples of `av`,
/// each numbered by the tenth it falls in; `bound` is `n * av`, the end of
/// the tenth numbered `n` that holds `start`.
pub open spec fn pieces(n: int, bound: int, start: int, tag: int, av: int) -> Seq<(u32, u128)>
    decreases tag - bound + av,
{
    if av <= 0 {
        seq![]
    } else if bound > tag {
        if tag - start > 0 { seq![(n as u32, (tag - start) as u128)] } else { seq![] }
    } else {
        seq![(n as u32, (bound - start) as u128)] + pieces(n + 1, bound + av, bound, tag, av)
    }
}

/// The pieces of one contribution: `amount` paid when the offering's running
/// total reached `tag`.
pub open spec fn tag_pieces(t: (u128, u128), av: int) -> Seq<(u32, u128)> {
    let start = sat_sub(t.1 as int, t.0 as int);
    let n0 = start / av + 1;
    pieces(n0, n0 * av, start, t.1 as int, av)
}

/// The pieces of all contributions, in order.
pub open spec fn classify_all(info: Seq<(u128, u128)>, av: int) -> Seq<(u32, u128)>
    decreases info.len(),
{
    if info.len() == 0 {
        seq![]
    } else {
        classify_all(info.drop_last(), av) + tag_pieces(info.last(), av)
    }
}

/// A contribution can be cut without overflow: the number of the tenth
/// after its end fits in a `u32`, and that tenth's end fits in a `u128`.
pub open spec fn tag_classifiable(t: (u128, u128), av: int) -> bool {
    &&& (t.1 as int) / av < u32::MAX
    &&& ((t.1 as int) / av + 1) * av <= u128::MAX
}

/// The sum of the amounts of a list of pieces.
pub open spec fn sum_amounts(s: Seq<(u32, u128)>) -> int
    decreases s.len(),
{
    if s.len() == 0 { 0 } else { sum_amounts(s.drop_last()) + s.last().1 }
}

/// The part of each contribution that counts: what was paid, up to the
/// running total reached.
pub open spec fn sum_counted(info: Seq<(u128, u128)>) -> int
    decreases info.len(),
{
    if info.len() == 0 {
        0
    } else {
        sum_counted(info.drop_last()) + (info.last().1 - sat_sub(info.last().1 as int, info.last().0 as int))
    }
}

proof fn lemma_sum_amounts_concat(a: Seq<(u32, u128)>, b: Seq<(u32, u128)>)
    ensures
        sum_amounts(a + b) == sum_amounts(a) + sum_amounts(b),
    decreases b.len(),
{
    if b.len() == 0 {
        assert(a + b =~= a);
    } else {
        assert((a + b).drop_last() =~= a + b.drop_last());
        lemma_sum_amounts_concat(a, b.drop_last());
    }
}

proof fn lemma_pieces_sum(n: int, bound: int, start: int, tag: int, av: int)
    requires
        av > 0,
        start <= tag,
        start < bound,
        0 <= start,
        tag <= u128::MAX,
    ensures
        sum_amounts(pieces(n, bound, start, tag, av)) == tag - start,
    decreases tag - bound + av,
{
    if bound > tag {
        if tag - start > 0 {
            let s = seq![(n as u32, (tag - start) as u128)];
            assert(s.drop_last() =~= Seq::<(u32, u128)>::empty());
            assert(sum_amounts(Seq::<(u32, u128)>::empty()) == 0);
        }
    } else {
        let head = seq![(n as u32, (bound - start) as u128)];
        lemma_pieces_sum(n + 1, bound + av, bound, tag, av);
        lemma_sum_amounts_concat(head, pieces(n + 1, bound + av, bound, tag, av));
        assert(head.drop_last() =~= Seq::<(u32, u128)>::empty());
        assert(sum_amounts(Seq::<(u32, u128)>::empty()) == 0);
        assert(sum_amounts(head) == bound - start);
    }
}

/// Cutting contributions into tenths keeps their amounts: the pieces add up
/// to the counted part of every contribution.
pub proof fn lemma_classify_preserves_amounts(info: Seq<(u128, u128)>, av: int)
    requires
        av > 0,
    ensures
        sum_amounts(classify_all(info, av)) == sum_counted(info),
    decreases info.len(),
{
    if info.len() > 0 {
        lemma_classify_preserves_amounts(info.drop_last(), av);
        let t = info.last();
        let start = sat_sub(t.1 as int, t.0 as int);
        let n0 = start / av + 1;
        assert(n0 * av > start) by (nonlinear_arith)
            requires n0 == start / av + 1, av > 0, start >= 0;
        lemma_pieces_sum(n0, n0 * av, start, t.1 as int, av);
        lemma_sum_amounts_concat(classify_all(info.drop_last(), av), tag_pieces(t, av));
    }
}

/// Every piece is numbered from one on.
pub proof fn lemma_pieces_numbered(n: int, bound: int, start: int, tag: int, av: int)
    requires
        1 <= n,
        bound == n * av,
        av > 0,
        tag / av < u32::MAX,
        (n - 1) * av <= tag,
    ensures
        forall|i: int| 0 <= i < pieces(n, bound, start, tag, av).len() ==>
            1 <= #[trigger] pieces(n, bound, start, tag, av)[i].0,
    decreases tag - bound + av,
{
    assert(n - 1 <= tag / av) by (nonlinear_arith)
        requires (n - 1) * av <= tag, av > 0, n >= 1;
    if bound <= tag {
        assert(bound + av == (n + 1) * av) by (nonlinear_arith) requires bound == n * av;
        lemma_pieces_numbered(n + 1, bound + av, bound, tag, av);
        let head = seq![(n as u32, (bound - start) as u128)];
        let rest = pieces(n + 1, bound + av, bound, tag, av);
        assert forall|i: int| 0 <= i < (head + rest).len() implies 1 <= #[trigger] (head + rest)[i].0 by {
            if i >= 1 {
                assert((head + rest)[i] == rest[i - 1]);
            }
        }
    }
}

fn push_tag_pieces(result: &mut Vec<(u32, u128)>, t: (u128, u128), av: u128)
    requires
        av > 0,
        tag_classifiable(t, av as int),
    ensures
        final(result)@ == old(result)@ + tag_pieces(t, av as int),
{
    let amount = t.0;
    let tag = t.1;
    let ghost av_i = av as int;
    let ghost last = (tag as int) / av_i + 1;
    let mut start: u128 = tag.saturating_sub(amount);
    let ghost start0 = start as int;
    assert(start / av <= tag / av) by (nonlinear_arith) requires start <= tag, av > 0;
    let mut n: u32 = (start / av) as u32 + 1;
    let ghost n0 = n as int;
    assert(n as int * av_i > start && (n as int - 1) * av_i <= start) by (nonlinear_arith)
        requires n as int == start / av + 1, av_i == av, av > 0, start >= 0;
    let ghost prefix = old(result)@;
    loop
        invariant_except_break
            av > 0,
            av_i == av,
            tag_classifiable(t, av_i),
            last == (tag as int) / av_i + 1,
            tag == t.1,
            start <= tag,
            1 <= n <= last,
            n as int * av_i > start,
            (n as int - 1) * av_i <= tag,
            result@ + pieces(n as int, n as int * av_i, start as int, tag as int, av_i)
                == prefix + pieces(n0, n0 * av_i, start0, tag as int, av_i),
        ensures
            start <= tag,
            (n as int) * av_i > tag,
            result@ + pieces(n as int, n as int * av_i, start as int, tag as int, av_i)
                == prefix + pieces(n0, n0 * av_i, start0, tag as int, av_i),
        decreases last - n as int,
    {
        assert((n as int) * av_i <= last * av_i) by (nonlinear_arith)
            requires n as int <= last, av_i > 0;
        let next = (n as u128) * av;
        if next > tag {
            break;
        }
        assert(n as int <= tag / av) by (nonlinear_arith)
            requires n as int * av_i <= tag, av > 0, av_i == av;
        let ghost old_result = result@;
        let ghost old_n = n as int;
        let ghost old_start = start as int;
        result.push((n, next - start));
        start = next;
        n = n + 1;
        assert((n as int) * av_i == old_n * av_i + av_i) by (nonlinear_arith)
            requires n as int == old_n + 1;
        assert(result@ + pieces(n as int, n as int * av_i, start as int, tag as int, av_i)
            =~= old_result + pieces(old_n, old_n * av_i, old_start, tag as int, av_i));
    }
    if tag - start > 0 {
        result.push((n, tag - start));
    }
    assert(result@ =~= prefix + pieces(n0, n0 * av_i, start0, tag as int, av_i));
}

/// Cuts every contribution `(amount, tag)` into pieces by the tenth of
/// `total_amount` they fall in; `amount` was paid when the running total
/// reached `tag`.
pub fn classify_user_amount(total_amount: Balance, info: &Vec<(Balance, Balance)>) -> (r: Vec<(u32, Balance)>)
    requires
        total_amount / 10 > 0 || info@.len() == 0,
        forall|i: int| 0 <= i < info@.len() ==> tag_classifiable(#[trigger] info@[i], (total_amount / 10) as int),
    ensures
        r@ == classify_all(info@, (total_amount / 10) as int),
{
    let av = total_amount / 10;
    let mut result: Vec<(u32, Balance)> = Vec::new();
    let mut i: usize = 0;
    while i < info.len()
        invariant
            av == total_amount / 10,
            av > 0 || info@.len() == 0,
            i <= info@.len(),
            forall|j: int| 0 <= j < info@.len() ==> tag_classifiable(#[trigger] info@[j], av as int),
            result@ == classify_all(info@.take(i as int), av as int),
        decreases info@.len() - i,
    {
        push_tag_pieces(&mut result, info[i], av);
        assert(info@.take(i as int + 1).drop_last() =~= info@.take(i as int));
        i = i + 1;
    }
    assert(info@.take(info@.len() as int) =~= info@);
    result
}

/// The weight of a piece in the tenth numbered `n`: the first five tenths
/// earn a bonus of fifty, forty, thirty, twenty and ten percent, the next
/// five a cut of ten to fifty percent, later tenths nothing.
pub open spec fn piece_weight(n: u32, amount: u128) -> int {
    if n <= 5 {
        amount + spec_percent_of(50 - (n - 1) * 10, amount as int)
    } else if n <= 10 {
        amount - spec_percent_of((n - 5) * 10, amount as int)
    } else {
        0
    }
}

/// The weighted sum of a list of pieces.
pub open spec fn weighted_sum(s: Seq<(u32, u128)>) -> int
    decreases s.len(),
{
    if s.len() == 0 { 0 } else { weighted_sum(s.drop_last()) + piece_weight(s.last().0, s.last().1) }
}

/// The reward of a list of pieces: the share of the offering's reward
/// `total_reward` that their weighted sum makes of the offering's total.
pub open spec fn spec_user_reward(info: Seq<(u32, u128)>, total_amount: int, total_reward: int) -> int {
    spec_mul_div(weighted_sum(info), total_reward, total_amount)
}

proof fn lemma_piece_weight_nonneg(n: u32, amount: u128)
    requires
        n >= 1,
    ensures
        0 <= piece_weight(n, amount),
        n > 5 ==> piece_weight(n, amount) <= amount,
{
    if n <= 5 {
        vstd::arithmetic::mul::lemma_mul_nonnegative(n - 1, 10);
        crate::arith::lemma_percent_of_bounds(50 - (n - 1) * 10, amount as int);
    } else if n <= 10 {
        crate::arith::lemma_percent_of_bounds((n - 5) * 10, amount as int);
    }
}

proof fn lemma_weighted_sum_monotone(s: Seq<(u32, u128)>, i: int)
    requires
        0 <= i <= s.len(),
        forall|j: int| 0 <= j < s.len() ==> 1 <= #[trigger] s[j].0,
    ensures
        0 <= weighted_sum(s.take(i)) <= weighted_sum(s),
    decreases s.len(),
{
    if s.len() > 0 {
        if i == s.len() {
            assert(s.take(i) =~= s);
            lemma_weighted_sum_monotone(s.drop_last(), i - 1);
            assert(s.drop_last().take(i - 1) =~= s.drop_last());
        } else {
            lemma_weighted_sum_monotone(s.drop_last(), i);
            assert(s.drop_last().take(i) =~= s.take(i));
        }
        lemma_piece_weight_nonneg(s.last().0, s.last().1);
    } else {
        assert(s.take(i) =~= s);
    }
}

/// The reward earned by a list of pieces within an offering whose total is
/// `total_amount` and whose reward is `total_reward`: the reward in
/// proportion to the pieces' weighted sum.
pub fn caculate_user_reward(info: &Vec<(u32, Balance)>, total_amount: Balance, total_reward: Balance) -> (r: Balance)
    requires
        total_amount != 0,
        forall|j: int| 0 <= j < info@.len() ==> 1 <= #[trigger] info@[j].0,
        weighted_sum(info@) <= u128::MAX,
        spec_user_reward(info@, total_amount as int, total_reward as int) <= u128::MAX,
    ensures
        r == spec_user_reward(info@, total_amount as int, total_reward as int),
{
    let mut sum: Balance = 0;
    let mut i: usize = 0;
    while i < info.len()
        invariant
            i <= info@.len(),
            forall|j: int| 0 <= j < info@.len() ==> 1 <= #[trigger] info@[j].0,
            weighted_sum(info@) <= u128::MAX,
            sum == weighted_sum(info@.take(i as int)),
        decreases info@.len() - i,
    {
        let (n, amount) = info[i];
        proof {
            lemma_weighted_sum_monotone(info@, i as int + 1);
            assert(info@.take(i as int + 1).drop_last() =~= info@.take(i as int));
            lemma_piece_weight_nonneg(n, amount);
        }
        if n <= 5 {
            let bonus = percent_of((50 - (n - 1) * 10) as u8, amount);
            sum = sum + (amount + bonus);
        } else if n > 5 && n <= 10 {
            let cut = percent_of(((n - 5) * 10) as u8, amount);
            sum = sum + (amount - cut);
        }
        i = i + 1;
    }
    assert(info@.take(info@.len() as int) =~= info@);
    mul_div(sum, total_reward, total_amount)
}

/// The amount in US dollars (eighteen decimals) that moves the reward
/// schedule one step; each step halves the reward rate.
pub const CHANGE_REWARD: u128 = 200_000_000_000_000_000_000_000_000u128;

/// The reward rate of a contribution of `actual` that brought the
/// historical total from `total - actual` to `total`, in US dollars.
pub open spec fn spec_power_as_usdt(total: int, actual: int) -> int {
    let num = total / CHANGE_REWARD as int;
    if sat_sub(total, actual) < num * CHANGE_REWARD as int {
        let power1 = sat_sub(total, num * CHANGE_REWARD as int);
        let power2 = sat_sub(actual, power1);
        power1 / pow(2, num as nat) + power2 / pow(2, (num - 1) as nat)
    } else {
        actual / pow(2, num as nat)
    }
}

/// The reward of an offering that raised `actual`, when the historical total
/// raised before it was `history`, with `ico_total_reward` as the budget.
pub open spec fn spec_total_reward(history: int, actual: int, ico_total_reward: int) -> int {
    let total = if history + actual > u128::MAX { u128::MAX as int } else { history + actual };
    spec_mul_div(spec_power_as_usdt(total, actual), ico_total_reward / 2, CHANGE_REWARD as int)
}

/// The most an offering that raised `actual` can earn with `budget` as the
/// reward budget: its whole raise counted at the first step's full rate.
pub open spec fn reward_cap(actual: int, budget: int) -> int {
    spec_mul_div(actual, budget / 2, CHANGE_REWARD as int)
}

/// An offering's reward never exceeds its cap: the rate at which its raise
/// counts only ever halves as the historical total grows.
pub proof fn lemma_total_reward_bounded(history: int, actual: int, budget: int)
    requires
        0 <= history <= u128::MAX,
        0 <= actual <= u128::MAX,
        0 <= budget,
    ensures
        0 <= spec_total_reward(history, actual, budget) <= reward_cap(actual, budget),
{
    let cr = CHANGE_REWARD as int;
    let total = if history + actual > u128::MAX { u128::MAX as int } else { history + actual };
    let num = total / cr;
    assert(num * cr <= total && num >= 0) by (nonlinear_arith) requires num == total / cr, cr > 0, total >= 0;
    let p = spec_power_as_usdt(total, actual);
    if sat_sub(total, actual) < num * cr {
        let power1 = sat_sub(total, num * cr);
        let power2 = sat_sub(actual, power1);
        assert(num >= 1) by (nonlinear_arith) requires sat_sub(total, actual) < num * cr, sat_sub(total, actual) >= 0, cr > 0;
        let d1 = pow(2, num as nat);
        let d2 = pow(2, (num - 1) as nat);
        vstd::arithmetic::power::lemma_pow_positive(2, num as nat);
        vstd::arithmetic::power::lemma_pow_positive(2, (num - 1) as nat);
        assert(power1 <= actual);
        assert(0 <= power1 / d1 <= power1) by (nonlinear_arith) requires d1 >= 1, power1 >= 0;
        assert(0 <= power2 / d2 <= power2) by (nonlinear_arith) requires d2 >= 1, power2 >= 0;
    } else {
        let d = pow(2, num as nat);
        vstd::arithmetic::power::lemma_pow_positive(2, num as nat);
        assert(0 <= actual / d <= actual) by (nonlinear_arith) requires d >= 1, actual >= 0;
    }
    assert(0 <= p <= actual);
    let b = budget / 2;
    assert(0 <= p * b / cr <= actual * b / cr) by (nonlinear_arith) requires 0 <= p <= actual, b >= 0, cr > 0;
}

/// A greater raise has a greater cap.
pub proof fn lemma_reward_cap_monotone(a1: int, a2: int, budget: int)
    requires
        0 <= a1 <= a2,
        0 <= budget,
    ensures
        reward_cap(a1, budget) <= reward_cap(a2, budget),
{
    let cr = CHANGE_REWARD as int;
    let b = budget / 2;
    assert(a1 * b / cr <= a2 * b / cr) by (nonlinear_arith) requires 0 <= a1 <= a2, b >= 0, cr > 0;
}

/// The historical total after adding an offering's total, saturated.
pub open spec fn spec_history_after(history: int, actual: int) -> int {
    if history + actual > u128::MAX { u128::MAX as int } else { history + actual }
}

/// The new historical total, and the reward of an offering that raised
/// `actual` when `history` had been raised before.
pub fn total_reward_of(history: Balance, actual: Balance, ico_total_reward: Balance) -> (r: (Balance, Balance))
    requires
        spec_history_after(history as int, actual as int) < 32 * CHANGE_REWARD,
        spec_total_reward(history as int, actual as int, ico_total_reward as int) <= u128::MAX,
    ensures
        r.0 == spec_history_after(history as int, actual as int),
        r.1 == spec_total_reward(history as int, actual as int, ico_total_reward as int),
{
    let total = history.saturating_add(actual);
    let num = total / CHANGE_REWARD;
    let ghost cr = CHANGE_REWARD as int;
    assert(num < 32) by (nonlinear_arith) requires total < 32 * CHANGE_REWARD, num == total / CHANGE_REWARD;
    assert(num * CHANGE_REWARD <= total) by (nonlinear_arith) requires num == total / CHANGE_REWARD;
    let power_as_usdt: Balance;
    if total.saturating_sub(actual) < num * CHANGE_REWARD {
        let power1 = total.saturating_sub(num * CHANGE_REWARD);
        let power2 = actual.saturating_sub(power1);
        let d1 = pow2_u32(num as u32);
        let d2 = pow2_u32(num as u32 - 1);
        assert(power1 as int / d1 as int <= power1) by (nonlinear_arith) requires d1 >= 1;
        assert(power2 as int / d2 as int <= power2) by (nonlinear_arith) requires d2 >= 1;
        assert(power1 + power2 <= u128::MAX);
        power_as_usdt = power1 / (d1 as u128) + power2 / (d2 as u128);
    } else {
        let d = pow2_u32(num as u32);
        power_as_usdt = actual / (d as u128);
    }
    let first_total = ico_total_reward / 2;
    (total, mul_div(power_as_usdt, first_total, CHANGE_REWARD))
}


/// Every piece of a classification is numbered from one on.
pub proof fn lemma_classify_numbered(info: Seq<(u128, u128)>, av: int)
    requires
        av > 0 || info.len() == 0,
        forall|i: int| 0 <= i < info.len() ==> tag_classifiable(#[trigger] info[i], av),
    ensures
        forall|j: int| 0 <= j < classify_all(info, av).len() ==> 1 <= #[trigger] classify_all(info, av)[j].0,
    decreases info.len(),
{
    if info.len() > 0 {
        let init = info.drop_last();
        assert forall|i: int| 0 <= i < init.len() implies tag_classifiable(#[trigger] init[i], av) by {
            assert(init[i] == info[i]);
        }
        lemma_classify_numbered(init, av);
        let t = info.last();
        assert(tag_classifiable(info[info.len() - 1], av));
        let start = sat_sub(t.1 as int, t.0 as int);
        let n0 = start / av + 1;
        assert((n0 - 1) * av <= start) by (nonlinear_arith) requires n0 == start / av + 1, av > 0, start >= 0;
        lemma_pieces_numbered(n0, n0 * av, start, t.1 as int, av);
        let a = classify_all(init, av);
        let b = tag_pieces(t, av);
        assert forall|j: int| 0 <= j < (a + b).len() implies 1 <= #[trigger] (a + b)[j].0 by {
            if j < a.len() {
                assert((a + b)[j] == a[j]);
            } else {
                assert((a + b)[j] == b[j - a.len()]);
            }
        }
    }
}
} // verus!
