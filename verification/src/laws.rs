use vstd::prelude::*;
use vstd::arithmetic::div_mod::{
    lemma_div_is_ordered, lemma_div_multiples_vanish, lemma_div_pos_is_pos,
    lemma_fundamental_div_mod, lemma_mod_pos_bound, lemma_multiply_divide_le,
};
use vstd::arithmetic::mul::{
    lemma_mul_is_distributive_add, lemma_mul_is_distributive_add_other_way, lemma_mul_inequality,
    lemma_mul_nonnegative,
};

use crate::contract::{
    spec_add_deed_ok_state, spec_circulating, spec_credit_err, spec_credit_ok_state,
    spec_donate_ok_state, spec_payouts, spec_share, spec_share_overflows, Contract,
    DONATION_DUST_THRESHOLD,
};
use crate::deed::{distinct_names, seq_contains};
use crate::error::Error;
use crate::ledger::{
    distinct_accounts, lemma_no_dup_tail, lemma_unregistered_balance_zero, spec_balance,
    spec_registered, spec_sum, AccountEntry,
};

verus! {

/// What any operation of this system preserves: deeds are never removed,
/// their identity and descriptive fields never change, creditor lists only
/// grow, and the reserve account stays the same.
pub open spec fn evolves(pre: Contract, post: Contract) -> bool {
    &&& pre.deeds@.len() <= post.deeds@.len()
    &&& forall|i: int|
        0 <= i < pre.deeds@.len() ==> {
            &&& (#[trigger] post.deeds@[i]).id == pre.deeds@[i].id
            &&& post.deeds@[i].author == pre.deeds@[i].author
            &&& post.deeds@[i].title == pre.deeds@[i].title
            &&& post.deeds@[i].description == pre.deeds@[i].description
            &&& post.deeds@[i].evidence == pre.deeds@[i].evidence
            &&& pre.deeds@[i].creditors@.is_prefix_of(post.deeds@[i].creditors@)
        }
    &&& post.owner == pre.owner
}

/// One step of the system: one successful `add_deed`, `credit` or `donate`
/// call, or an operation that leaves the registry and the reserve alone — a
/// failed call (which changes nothing) or an account registration.
pub open spec fn spec_step(pre: Contract, post: Contract) -> bool {
    ||| (post.deeds == pre.deeds && post.owner == pre.owner)
    ||| exists|author: String, title: String, description: String, evidence: String|
        spec_add_deed_ok_state(pre, post, author, title, description, evidence)
    ||| exists|id: u64, caller: String| spec_credit_ok_state(pre, post, id, caller)
    ||| exists|donor: String, deposit: u128| spec_donate_ok_state(pre, post, donor, deposit)
}

/// Every step of the system evolves the state: registry and creditor lists
/// are append-only.
pub proof fn lemma_step_evolves(pre: Contract, post: Contract)
    requires
        spec_step(pre, post),
    ensures
        evolves(pre, post),
{
    if post.deeds == pre.deeds && post.owner == pre.owner {
        lemma_evolves_refl(pre);
        assert forall|i: int| 0 <= i < pre.deeds@.len() implies pre.deeds@[
        i].creditors@.is_prefix_of((#[trigger] post.deeds@[i]).creditors@) by {
            lemma_prefix_refl(pre.deeds@[i].creditors@);
        }
    } else if exists|author: String, title: String, description: String, evidence: String|
        spec_add_deed_ok_state(pre, post, author, title, description, evidence) {
        assert forall|i: int| 0 <= i < pre.deeds@.len() implies pre.deeds@[
        i].creditors@.is_prefix_of((#[trigger] post.deeds@[i]).creditors@) by {
            lemma_prefix_refl(pre.deeds@[i].creditors@);
        }
    } else if exists|id: u64, caller: String| spec_credit_ok_state(pre, post, id, caller) {
        let (id, caller) = choose|id: u64, caller: String|
            spec_credit_ok_state(pre, post, id, caller);
        assert forall|i: int| 0 <= i < pre.deeds@.len() implies pre.deeds@[
        i].creditors@.is_prefix_of((#[trigger] post.deeds@[i]).creditors@) by {
            if i == id {
                lemma_prefix_push(pre.deeds@[i].creditors@, caller);
            } else {
                lemma_prefix_refl(pre.deeds@[i].creditors@);
            }
        }
    } else {
        assert forall|i: int| 0 <= i < pre.deeds@.len() implies pre.deeds@[
        i].creditors@.is_prefix_of((#[trigger] post.deeds@[i]).creditors@) by {
            lemma_prefix_refl(pre.deeds@[i].creditors@);
        }
    }
}

/// Evolution is reflexive.
pub proof fn lemma_evolves_refl(s: Contract)
    ensures
        evolves(s, s),
{
    assert forall|i: int| 0 <= i < s.deeds@.len() implies s.deeds@[i].creditors@.is_prefix_of(
        (#[trigger] s.deeds@[i]).creditors@,
    ) by {
        lemma_prefix_refl(s.deeds@[i].creditors@);
    }
}

/// Evolution is transitive.
pub proof fn lemma_evolves_trans(a: Contract, b: Contract, c: Contract)
    requires
        evolves(a, b),
        evolves(b, c),
    ensures
        evolves(a, c),
{
    assert forall|i: int| 0 <= i < a.deeds@.len() implies a.deeds@[i].creditors@.is_prefix_of(
        (#[trigger] c.deeds@[i]).creditors@,
    ) by {
        lemma_prefix_trans(a.deeds@[i].creditors@, b.deeds@[i].creditors@, c.deeds@[i].creditors@);
    }
}

proof fn lemma_prefix_refl(s: Seq<String>)
    ensures
        s.is_prefix_of(s),
{
    assert(s =~= s.subrange(0, s.len() as int));
}

proof fn lemma_prefix_push(s: Seq<String>, e: String)
    ensures
        s.is_prefix_of(s.push(e)),
{
    assert(s =~= s.push(e).subrange(0, s.len() as int));
}

proof fn lemma_prefix_trans(a: Seq<String>, b: Seq<String>, c: Seq<String>)
    requires
        a.is_prefix_of(b),
        b.is_prefix_of(c),
    ensures
        a.is_prefix_of(c),
{
    assert(a =~= c.subrange(0, a.len() as int));
}

/// A whole history of steps evolves the state: whatever sequence of
/// operations runs, the registry and every creditor list only grow.
pub proof fn lemma_steps_evolve(states: Seq<Contract>)
    requires
        states.len() >= 1,
        forall|k: int| 0 <= k < states.len() - 1 ==> spec_step(#[trigger] states[k], states[k + 1]),
    ensures
        evolves(states[0], states.last()),
    decreases states.len(),
{
    if states.len() == 1 {
        lemma_evolves_refl(states[0]);
    } else {
        let n = states.len() as int;
        lemma_steps_evolve(states.drop_last());
        assert(states.drop_last()[0] == states[0]);
        assert(states.drop_last().last() == states[n - 2]);
        lemma_step_evolves(states[n - 2], states[n - 1]);
        lemma_evolves_trans(states[0], states[n - 2], states[n - 1]);
    }
}

/// A successful credit records the caller as a creditor of the deed.
pub proof fn lemma_credit_success_records(pre: Contract, post: Contract, id: u64, caller: String)
    requires
        spec_credit_ok_state(pre, post, id, caller),
    ensures
        post.deeds@[id as int].spec_is_creditor(caller@),
{
    let s = post.deeds@[id as int].creditors@;
    assert(s[s.len() - 1]@ == caller@);
}

/// Law: at most one credit ever succeeds per deed-and-account pair. After
/// an account has successfully credited a deed, any later credit of that
/// deed by that account — however the state has evolved in between — fails
/// with `DuplicateCreditError`, and a failed credit changes nothing.
pub proof fn lemma_credit_at_most_once(
    pre: Contract,
    mid: Contract,
    later: Contract,
    id: u64,
    caller: String,
    deposit: u128,
    later_deposit: u128,
)
    requires
        spec_credit_err(pre, id, caller@, deposit) is None,
        spec_credit_ok_state(pre, mid, id, caller),
        evolves(mid, later),
    ensures
        spec_credit_err(later, id, caller@, later_deposit) == Some(Error::DuplicateCreditError),
{
    lemma_credit_success_records(pre, mid, id, caller);
    let s = mid.deeds@[id as int].creditors@;
    let t = later.deeds@[id as int].creditors@;
    assert(s.is_prefix_of(t));
    let k = choose|k: int| 0 <= k < s.len() && s[k]@ == caller@;
    assert(t.subrange(0, s.len() as int)[k] == t[k]);
    assert(t[k]@ == caller@);
    assert(later.deeds@[id as int].spec_is_creditor(caller@));
    assert(later.deeds@[id as int].author == mid.deeds@[id as int].author);
    assert(mid.deeds@[id as int].author == pre.deeds@[id as int].author);
}

/// Law: `N` successful credits of one deed raise its creditor count by
/// exactly `N` and its author's token balance by exactly `N` reward units.
/// (The callers are necessarily distinct: a credit only succeeds for an
/// account that is not yet a creditor.)
pub proof fn lemma_credit_chain(states: Seq<Contract>, callers: Seq<String>, id: u64)
    requires
        states.len() == callers.len() + 1,
        forall|k: int|
            0 <= k < callers.len() ==> spec_credit_ok_state(
                #[trigger] states[k],
                states[k + 1],
                id,
                callers[k],
            ),
    ensures
        states.last().deeds@[id as int].creditors@.len() == states[0].deeds@[id
            as int].creditors@.len() + callers.len(),
        states.last().token.spec_balance_of(states[0].deeds@[id as int].author@) == states[
            0].token.spec_balance_of(states[0].deeds@[id as int].author@) + callers.len(),
        states.last().deeds@[id as int].author == states[0].deeds@[id as int].author,
    decreases callers.len(),
{
    if callers.len() > 0 {
        let n = callers.len() as int;
        lemma_credit_chain(states.drop_last(), callers.drop_last(), id);
        assert(states.drop_last()[0] == states[0]);
        assert(states.drop_last().last() == states[n - 1]);
        assert(spec_credit_ok_state(states[n - 1], states[n], id, callers[n - 1]));
        assert(states[n] == states.last());
    }
}

/// The total value a payout list asks the host to transfer.
pub open spec fn spec_payout_total(ps: Seq<(Seq<char>, u128)>) -> int
    decreases ps.len(),
{
    if ps.len() == 0 {
        0
    } else {
        spec_payout_total(ps.drop_last()) + ps.last().1
    }
}

/// The summed ledger balance of the accounts in `accts` other than `skip`.
pub open spec fn spec_eligible_sum(
    accts: Seq<String>,
    entries: Seq<AccountEntry>,
    skip: Seq<char>,
) -> int
    decreases accts.len(),
{
    if accts.len() == 0 {
        0
    } else {
        spec_eligible_sum(accts.drop_last(), entries, skip) + if accts.last()@ == skip {
            0int
        } else {
            spec_balance(entries, accts.last()@) as int
        }
    }
}

proof fn lemma_eligible_sum_nonneg(accts: Seq<String>, entries: Seq<AccountEntry>, skip: Seq<char>)
    ensures
        spec_eligible_sum(accts, entries, skip) >= 0,
    decreases accts.len(),
{
    if accts.len() > 0 {
        lemma_eligible_sum_nonneg(accts.drop_last(), entries, skip);
    }
}

/// Growing the ledger by one fresh row raises the eligible sum by that
/// row's balance exactly when the row's account is among the eligible ones.
proof fn lemma_eligible_sum_push_entry(
    accts: Seq<String>,
    es: Seq<AccountEntry>,
    en: AccountEntry,
    skip: Seq<char>,
)
    requires
        distinct_names(accts),
        !spec_registered(es, en.id@),
    ensures
        spec_eligible_sum(accts, es.push(en), skip) == spec_eligible_sum(accts, es, skip) + (
        if seq_contains(accts, en.id@) && en.id@ != skip {
            en.balance as int
        } else {
            0int
        }),
    decreases accts.len(),
{
    assert(es.push(en).drop_last() =~= es);
    if accts.len() == 0 {
    } else {
        let a = accts.last();
        let rest = accts.drop_last();
        lemma_eligible_sum_push_entry(rest, es, en, skip);
        lemma_unregistered_balance_zero(es, en.id@);
        if a@ == en.id@ {
            assert(!seq_contains(rest, en.id@)) by {
                if seq_contains(rest, en.id@) {
                    let i = choose|i: int| 0 <= i < rest.len() && rest[i]@ == en.id@;
                    assert(accts[i]@ == accts[accts.len() - 1]@);
                }
            }
            assert(seq_contains(accts, en.id@)) by {
                assert(accts[accts.len() - 1]@ == en.id@);
            }
            assert(spec_balance(es.push(en), a@) == en.balance);
        } else {
            assert(spec_balance(es.push(en), a@) == spec_balance(es, a@));
            assert(seq_contains(accts, en.id@) == seq_contains(rest, en.id@)) by {
                if seq_contains(accts, en.id@) {
                    let i = choose|i: int| 0 <= i < accts.len() && accts[i]@ == en.id@;
                    assert(i < rest.len() && rest[i]@ == en.id@);
                }
                if seq_contains(rest, en.id@) {
                    let i = choose|i: int| 0 <= i < rest.len() && rest[i]@ == en.id@;
                    assert(accts[i]@ == en.id@);
                }
            }
        }
    }
}

/// The balances of distinct eligible accounts that exclude `e1` and `skip`
/// sum to at most the whole supply minus the balances of `e1` and `skip`.
proof fn lemma_eligible_sum_bounded(
    accts: Seq<String>,
    entries: Seq<AccountEntry>,
    e1: Seq<char>,
    skip: Seq<char>,
)
    requires
        distinct_names(accts),
        distinct_accounts(entries),
        e1 != skip,
        !seq_contains(accts, e1),
    ensures
        spec_eligible_sum(accts, entries, skip) <= spec_sum(entries) - spec_balance(entries, e1)
            - spec_balance(entries, skip),
    decreases entries.len(),
{
    if entries.len() == 0 {
        assert(entries =~= Seq::<AccountEntry>::empty());
        lemma_eligible_sum_empty(accts, skip);
    } else {
        let en = entries.last();
        let es = entries.drop_last();
        assert(entries =~= es.push(en));
        lemma_no_dup_tail(entries, en.id@);
        lemma_eligible_sum_bounded(accts, es, e1, skip);
        lemma_eligible_sum_push_entry(accts, es, en, skip);
        lemma_unregistered_balance_zero(es, en.id@);
        assert(spec_sum(entries) == spec_sum(es) + en.balance);
        assert(spec_balance(entries, e1) == if en.id@ == e1 {
            en.balance
        } else {
            spec_balance(es, e1)
        });
        assert(spec_balance(entries, skip) == if en.id@ == skip {
            en.balance
        } else {
            spec_balance(es, skip)
        });
        assert(spec_eligible_sum(accts, entries, skip) == spec_eligible_sum(accts, es, skip) + (
        if seq_contains(accts, en.id@) && en.id@ != skip {
            en.balance as int
        } else {
            0int
        }));
        if en.id@ == e1 {
            assert(!seq_contains(accts, en.id@));
            assert(spec_balance(es, e1) == 0);
        } else if en.id@ == skip {
            assert(spec_balance(es, skip) == 0);
        }
    }
}

proof fn lemma_eligible_sum_empty(accts: Seq<String>, skip: Seq<char>)
    ensures
        spec_eligible_sum(accts, Seq::<AccountEntry>::empty(), skip) == 0,
    decreases accts.len(),
{
    if accts.len() > 0 {
        lemma_eligible_sum_empty(accts.drop_last(), skip);
    }
}

/// Floored division loses value: dividing two parts separately never gives
/// more than dividing their sum.
proof fn lemma_div_superadditive(a: int, b: int, d: int)
    requires
        a >= 0,
        b >= 0,
        d > 0,
    ensures
        a / d + b / d <= (a + b) / d,
{
    let q = a / d + b / d;
    lemma_fundamental_div_mod(a, d);
    lemma_fundamental_div_mod(b, d);
    lemma_mod_pos_bound(a, d);
    lemma_mod_pos_bound(b, d);
    lemma_mul_is_distributive_add(d, a / d, b / d);
    assert(d * q <= a + b);
    lemma_div_multiples_vanish(q, d);
    lemma_div_is_ordered(d * q, a + b, d);
}

/// Every entry of a payout list names an account other than the donor and
/// carries exactly that account's floored proportional share, which exceeds
/// the dust threshold.
pub proof fn lemma_payouts_amounts(accts: Seq<String>, s: Contract, donor: Seq<char>, rem: u128)
    requires
        spec_circulating(s, donor) > 0,
        forall|j: int|
            0 <= j < accts.len() && (#[trigger] accts[j])@ != donor ==> spec_share(
                s,
                donor,
                rem,
                accts[j]@,
            ) <= u128::MAX,
    ensures
        forall|k: int|
            0 <= k < spec_payouts(accts, s, donor, rem).len() ==> {
                let p = #[trigger] spec_payouts(accts, s, donor, rem)[k];
                &&& p.0 != donor
                &&& p.1 > DONATION_DUST_THRESHOLD
                &&& p.1 == spec_share(s, donor, rem, p.0)
            },
    decreases accts.len(),
{
    if accts.len() > 0 {
        let rest = accts.drop_last();
        lemma_payouts_amounts(rest, s, donor, rem);
        let a = accts.last()@;
        let ps = spec_payouts(accts, s, donor, rem);
        let ps_rest = spec_payouts(rest, s, donor, rem);
        if a != donor && spec_share(s, donor, rem, a) > DONATION_DUST_THRESHOLD {
            assert(accts[accts.len() - 1]@ == a);
            assert(spec_share(s, donor, rem, a) <= u128::MAX);
            assert forall|k: int| 0 <= k < ps.len() implies {
                let p = #[trigger] ps[k];
                &&& p.0 != donor
                &&& p.1 > DONATION_DUST_THRESHOLD
                &&& p.1 == spec_share(s, donor, rem, p.0)
            } by {
                if k < ps_rest.len() {
                    assert(ps[k] == ps_rest[k]);
                }
            }
        }
    }
}

/// The payout total is bounded by the eligible balance sum's proportional
/// part of the pool.
proof fn lemma_payouts_le_budget(accts: Seq<String>, s: Contract, donor: Seq<char>, rem: u128)
    requires
        spec_circulating(s, donor) > 0,
        forall|j: int|
            0 <= j < accts.len() && (#[trigger] accts[j])@ != donor ==> spec_share(
                s,
                donor,
                rem,
                accts[j]@,
            ) <= u128::MAX,
    ensures
        spec_payout_total(spec_payouts(accts, s, donor, rem)) <= (spec_eligible_sum(
            accts,
            s.token.accounts@,
            donor,
        ) * rem) / spec_circulating(s, donor),
    decreases accts.len(),
{
    let c = spec_circulating(s, donor);
    let entries = s.token.accounts@;
    if accts.len() == 0 {
        assert(0int * rem == 0) by (nonlinear_arith);
        assert(0int / c == 0) by (nonlinear_arith)
            requires
                c > 0,
        ;
    } else {
        let a = accts.last()@;
        let rest = accts.drop_last();
        lemma_payouts_le_budget(rest, s, donor, rem);
        lemma_eligible_sum_nonneg(rest, entries, donor);
        let sum_rest = spec_eligible_sum(rest, entries, donor);
        let b: int = if a == donor {
            0
        } else {
            spec_balance(entries, a) as int
        };
        let sum_all = spec_eligible_sum(accts, entries, donor);
        assert(sum_all == sum_rest + b);
        lemma_mul_inequality(sum_rest, sum_all, rem as int);
        lemma_div_is_ordered(sum_rest * rem, sum_all * rem, c);
        let share = spec_share(s, donor, rem, a);
        if a != donor && share > DONATION_DUST_THRESHOLD {
            assert(accts[accts.len() - 1]@ == a);
            assert(share <= u128::MAX);
            lemma_mul_nonnegative(s.token.spec_balance_of(a) as int, rem as int);
            lemma_div_pos_is_pos(s.token.spec_balance_of(a) * rem, c);
            lemma_mul_nonnegative(sum_rest, rem as int);
            lemma_mul_nonnegative(b, rem as int);
            lemma_div_superadditive(sum_rest * rem, b * rem, c);
            lemma_mul_is_distributive_add_other_way(rem as int, sum_rest, b);
            let ps = spec_payouts(accts, s, donor, rem);
            let ps_rest = spec_payouts(rest, s, donor, rem);
            assert(ps == ps_rest.push((a, share as u128)));
            assert(ps.drop_last() =~= ps_rest);
            assert(ps.last().1 == share as u128);
            assert(share as u128 == share);
            assert(spec_payout_total(ps) == spec_payout_total(ps_rest) + share);
        }
    }
}

/// Law: a donation distributes to each eligible recipient a non-negative
/// amount that is exactly the floored proportional share
/// `balance * remaining / circulating` and exceeds the dust threshold, and
/// the total distributed never exceeds the donation pool `remaining`.
///
/// This holds whenever the reserve is not itself an eligible recipient:
/// the reserve account neither appears among the donatable accounts nor is
/// the donor. (A reserve that authored a deed could otherwise claim a share
/// computed against a denominator that excludes its own balance.)
pub proof fn lemma_donation_bounded(s: Contract, donor: Seq<char>, remaining: u128)
    requires
        s.wf(),
        spec_circulating(s, donor) > 0,
        !spec_share_overflows(s, donor, remaining),
        !seq_contains(s.donatable_accounts@, s.owner@),
        s.owner@ != donor,
    ensures
        spec_payout_total(spec_payouts(s.donatable_accounts@, s, donor, remaining)) <= remaining,
        forall|k: int|
            0 <= k < spec_payouts(s.donatable_accounts@, s, donor, remaining).len() ==> {
                let p = #[trigger] spec_payouts(s.donatable_accounts@, s, donor, remaining)[k];
                &&& p.0 != donor
                &&& p.1 > DONATION_DUST_THRESHOLD
                &&& p.1 == spec_share(s, donor, remaining, p.0)
            },
{
    let accts = s.donatable_accounts@;
    let entries = s.token.accounts@;
    let c = spec_circulating(s, donor);
    assert(forall|j: int|
        0 <= j < accts.len() && (#[trigger] accts[j])@ != donor ==> spec_share(
            s,
            donor,
            remaining,
            accts[j]@,
        ) <= u128::MAX);
    lemma_payouts_amounts(accts, s, donor, remaining);
    lemma_payouts_le_budget(accts, s, donor, remaining);
    lemma_eligible_sum_bounded(accts, entries, s.owner@, donor);
    let sum_all = spec_eligible_sum(accts, entries, donor);
    assert(sum_all <= c);
    lemma_eligible_sum_nonneg(accts, entries, donor);
    lemma_mul_inequality(sum_all, c, remaining as int);
    assert(c * remaining == remaining * c) by (nonlinear_arith);
    lemma_multiply_divide_le(sum_all * remaining, c, remaining as int);
}

} // verus!
