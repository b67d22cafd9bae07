use vstd::prelude::*;

use crate::accounting::{
    calculate_and_check_deposit, refund_deposit, spec_account_storage, spec_creditor_storage,
    spec_deed_storage, RefundAction, ACCOUNT_RECORD_OVERHEAD, CREDITOR_RECORD_OVERHEAD,
    DEED_RECORD_OVERHEAD,
};
use crate::deed::{distinct_names, seq_contains, vec_contains, SerializableDeed, SocialDeed};
use crate::error::Error;
use crate::ledger::{lemma_balance_le_sum, Ledger};
use crate::math::mul_div;
use crate::text::{credit_memo, donation_description, donation_log, spec_credit_memo,
    spec_donation_description, spec_donation_log};

verus! {

/// The fee charged per storage unit when no host-specific rate is given.
pub const DEFAULT_STORAGE_UNIT_COST: u128 = 10_000_000_000_000_000_000;

/// A donation share at or below this many smallest units is discarded rather
/// than transferred.
pub const DONATION_DUST_THRESHOLD: u128 = 10_000_000_000_000_000_000_000;

/// Whether some deed of `deeds` is authored by `a`.
pub open spec fn is_deed_author(deeds: Seq<SocialDeed>, a: Seq<char>) -> bool {
    exists|i: int| 0 <= i < deeds.len() && deeds[i].author@ == a
}

/// The deed-and-donation system: an append-only deed registry, the set of
/// accounts that ever authored a deed, and the reward ledger whose reserve is
/// `owner`. `storage_unit_cost` is the host's fee per storage unit.
pub struct Contract {
    pub token: Ledger,
    pub deeds: Vec<SocialDeed>,
    pub owner: String,
    pub donatable_accounts: Vec<String>,
    pub storage_unit_cost: u128,
}

impl Contract {
    /// The registry invariant: every deed is well formed and sits at the
    /// position its id names; the donatable set lists, without duplicates,
    /// exactly the accounts that have ever authored a deed; the ledger is
    /// well formed.
    pub open spec fn wf(&self) -> bool {
        &&& self.token.wf()
        &&& forall|i: int|
            0 <= i < self.deeds@.len() ==> (#[trigger] self.deeds@[i]).wf() && self.deeds@[i].id
                == i
        &&& distinct_names(self.donatable_accounts@)
        &&& forall|a: Seq<char>|
            #[trigger] seq_contains(self.donatable_accounts@, a) == is_deed_author(self.deeds@, a)
    }

    /// Initializes the system: the whole supply is minted to `owner_id`,
    /// which also acts as the reward reserve; no deeds exist yet.
    pub fn new(owner_id: String, total_supply: u128, storage_unit_cost: u128) -> (r: Contract)
        ensures
            r.wf(),
            r.owner == owner_id,
            r.storage_unit_cost == storage_unit_cost,
            r.deeds@.len() == 0,
            r.donatable_accounts@.len() == 0,
            r.token.total == total_supply,
            forall|x: Seq<char>| r.token.spec_is_registered(x) == (x == owner_id@),
            forall|x: Seq<char>|
                r.token.spec_balance_of(x) == (if x == owner_id@ {
                    total_supply
                } else {
                    0u128
                }),
    {
        let mut token = Ledger::new();
        token.register_account(&owner_id);
        let deposited = token.deposit(&owner_id, total_supply);
        proof {
            assert(deposited is Ok);
        }
        Contract {
            token,
            deeds: Vec::new(),
            owner: owner_id,
            donatable_accounts: Vec::new(),
            storage_unit_cost,
        }
    }

    /// Initializes the system with the default storage fee rate.
    pub fn new_default_meta(owner_id: String, total_supply: u128) -> (r: Contract)
        ensures
            r.wf(),
            r.owner == owner_id,
            r.storage_unit_cost == DEFAULT_STORAGE_UNIT_COST,
            r.deeds@.len() == 0,
            r.donatable_accounts@.len() == 0,
            r.token.total == total_supply,
            forall|x: Seq<char>| r.token.spec_is_registered(x) == (x == owner_id@),
            forall|x: Seq<char>|
                r.token.spec_balance_of(x) == (if x == owner_id@ {
                    total_supply
                } else {
                    0u128
                }),
    {
        Contract::new(owner_id, total_supply, DEFAULT_STORAGE_UNIT_COST)
    }

    /// Registers `account_id` in the ledger with a zero balance; a no-op for
    /// an account that is already registered. Registration bookkeeping is the
    /// ledger collaborator's concern; no storage fee is modeled here.
    pub fn register_account(&mut self, account_id: &String)
        requires
            old(self).wf(),
        ensures
            final(self).wf(),
            final(self).token.spec_is_registered(account_id@),
            forall|x: Seq<char>|
                final(self).token.spec_is_registered(x) == (old(self).token.spec_is_registered(x)
                    || x == account_id@),
            forall|x: Seq<char>|
                final(self).token.spec_balance_of(x) == old(self).token.spec_balance_of(x),
            final(self).token.total == old(self).token.total,
            final(self).deeds == old(self).deeds,
            final(self).owner == old(self).owner,
            final(self).donatable_accounts == old(self).donatable_accounts,
            final(self).storage_unit_cost == old(self).storage_unit_cost,
    {
        self.token.register_account(account_id);
    }

    /// True exactly when `account_id` is registered in the ledger.
    pub fn is_registered(&self, account_id: &String) -> (r: bool)
        ensures
            r == self.token.spec_is_registered(account_id@),
    {
        self.token.is_registered(account_id)
    }

    /// The token balance of `account_id`; zero when unregistered.
    pub fn ft_balance_of(&self, account_id: &String) -> (r: u128)
        requires
            self.wf(),
        ensures
            r == self.token.spec_balance_of(account_id@),
    {
        self.token.balance_of(account_id)
    }

    /// The total token supply.
    pub fn ft_total_supply(&self) -> (r: u128)
        ensures
            r == self.token.total,
    {
        self.token.total_supply()
    }

    /// How many deeds the registry holds.
    pub fn get_deeds_count(&self) -> (r: u64)
        ensures
            r == self.deeds@.len(),
    {
        self.deeds.len() as u64
    }

    /// The deed with id `id`; fails with `ValidationError` when no such deed
    /// exists.
    pub fn get_deed(&self, id: u64) -> (r: Result<&SocialDeed, Error>)
        ensures
            r is Ok <==> id < self.deeds@.len(),
            r is Ok ==> r->Ok_0 == &self.deeds@[id as int],
            r is Err ==> r == Result::<&SocialDeed, Error>::Err(Error::ValidationError),
    {
        let n = self.deeds.len();
        if id < n as u64 {
            Ok(&self.deeds[id as usize])
        } else {
            Err(Error::ValidationError)
        }
    }

    /// Publishes a new deed. The stated author must be the calling account;
    /// the attached payment must cover the storage growth of the new record
    /// (and, for a first-time author, of the donatable-set entry). The new
    /// deed's id is the registry length at insertion, and any payment beyond
    /// the fee is returned to the caller unless it is dust.
    pub fn add_deed(
        &mut self,
        author: String,
        title: String,
        description: String,
        evidence: String,
        caller: &String,
        attached_deposit: u128,
    ) -> (r: Result<Option<RefundAction>, Error>)
        requires
            old(self).wf(),
        ensures
            final(self).wf(),
            match spec_add_deed_err(
                *old(self),
                author@,
                title@,
                description@,
                evidence@,
                caller@,
                attached_deposit,
            ) {
                Some(e) => r == Result::<Option<RefundAction>, Error>::Err(e) && *final(self)
                    == *old(self),
                None => {
                    &&& r is Ok
                    &&& spec_add_deed_ok_state(
                        *old(self),
                        *final(self),
                        author,
                        title,
                        description,
                        evidence,
                    )
                    &&& match r->Ok_0 {
                        Some(refund) => refund.recipient@ == caller@ && refund.amount
                            == attached_deposit - spec_add_deed_used(*old(self), author@, title@,
                            description@, evidence@) * old(self).storage_unit_cost
                            && refund.amount > 1,
                        None => attached_deposit - spec_add_deed_used(*old(self), author@, title@,
                            description@, evidence@) * old(self).storage_unit_cost <= 1,
                    }
                },
            },
    {
        if !(author == *caller) {
            return Err(Error::AuthorizationError);
        }
        let newly = !vec_contains(&self.donatable_accounts, &author);
        let a_len = author.as_str().unicode_len();
        let t_len = title.as_str().unicode_len();
        let d_len = description.as_str().unicode_len();
        let e_len = evidence.as_str().unicode_len();
        let mut used: u128 = a_len as u128 + t_len as u128 + d_len as u128 + e_len as u128
            + DEED_RECORD_OVERHEAD as u128;
        if newly {
            used = used + (a_len as u128 + ACCOUNT_RECORD_OVERHEAD as u128);
        }
        let refund_opt = match refund_deposit(used, self.storage_unit_cost, attached_deposit,
            caller) {
            Ok(o) => o,
            Err(e) => {
                return Err(e);
            },
        };
        let ghost donatable0 = self.donatable_accounts@;
        let ghost deeds0 = self.deeds@;
        let id = self.deeds.len() as u64;
        if newly {
            self.donatable_accounts.push(author.clone());
        }
        let deed = SocialDeed::new(id, author, title, description, evidence);
        self.deeds.push(deed);
        proof {
            assert forall|i: int|
                0 <= i < self.deeds@.len() implies (#[trigger] self.deeds@[i]).wf()
                && self.deeds@[i].id == i by {
                if i < deeds0.len() {
                    assert(self.deeds@[i] == deeds0[i]);
                }
            }
            if newly {
                assert forall|i: int, j: int|
                    0 <= i < j < self.donatable_accounts@.len() implies self.donatable_accounts@[
                    i]@ != self.donatable_accounts@[j]@ by {
                    if j == self.donatable_accounts@.len() - 1 {
                        assert(donatable0[i]@ != self.deeds@.last().author@);
                    }
                }
            }
            let d = self.deeds@.last();
            assert forall|a: Seq<char>|
                #[trigger] seq_contains(self.donatable_accounts@, a) == is_deed_author(
                self.deeds@, a) by {
                lemma_push_author(deeds0, d, a);
                if newly {
                    lemma_push_contains(donatable0, d.author, a);
                } else {
                    if a == d.author@ {
                        assert(seq_contains(donatable0, a));
                    }
                }
            }
        }
        Ok(refund_opt)
    }
}

/// What a successful `credit` call hands back: the dust-guarded refund of
/// the overpaid storage fee, and the memo that annotated the reward
/// transfer.
pub struct CreditOutcome {
    pub refund: Option<RefundAction>,
    pub memo: String,
}

impl Contract {
    /// Endorses deed `id` on behalf of `caller`: records the caller as a
    /// creditor and moves one reward unit from the reserve to the deed's
    /// author. Each account can credit a given deed at most once, an author
    /// never their own deed. A failed call leaves everything unchanged.
    pub fn credit(&mut self, id: u64, caller: &String, attached_deposit: u128) -> (r: Result<
        CreditOutcome,
        Error,
    >)
        requires
            old(self).wf(),
        ensures
            final(self).wf(),
            match spec_credit_err(*old(self), id, caller@, attached_deposit) {
                Some(e) => r == Result::<CreditOutcome, Error>::Err(e) && *final(self) == *old(
                self),
                None => {
                    &&& r is Ok
                    &&& spec_credit_ok_state(*old(self), *final(self), id, *caller)
                    &&& r->Ok_0.memo@ == spec_credit_memo(
                        old(self).deeds@[id as int].author@,
                        caller@,
                    )
                    &&& match r->Ok_0.refund {
                        Some(refund) => refund.recipient@ == caller@ && refund.amount
                            == attached_deposit - spec_creditor_storage(caller@) * old(
                        self).storage_unit_cost && refund.amount > 1,
                        None => attached_deposit - spec_creditor_storage(caller@) * old(
                        self).storage_unit_cost <= 1,
                    }
                },
            },
    {
        let n = self.deeds.len();
        if !(id < n as u64) {
            return Err(Error::ValidationError);
        }
        let idx = id as usize;
        let author = self.deeds[idx].author.clone();
        if author == *caller {
            return Err(Error::SelfCreditError);
        }
        if vec_contains(&self.deeds[idx].creditors, caller) {
            return Err(Error::DuplicateCreditError);
        }
        if author == self.owner {
            return Err(Error::AccountingError);
        }
        if !self.token.is_registered(&self.owner) {
            return Err(Error::AccountingError);
        }
        if !self.token.is_registered(&author) {
            return Err(Error::AccountingError);
        }
        if self.token.balance_of(&self.owner) < 1 {
            return Err(Error::AccountingError);
        }
        let c_len = caller.as_str().unicode_len();
        let used = c_len as u128 + CREDITOR_RECORD_OVERHEAD as u128;
        let refund = match refund_deposit(used, self.storage_unit_cost, attached_deposit,
            caller) {
            Ok(o) => o,
            Err(e) => {
                return Err(e);
            },
        };
        let ghost deeds0 = self.deeds@;
        deed_add_creditor(&mut self.deeds, idx, caller);
        let transferred = self.token.transfer(&self.owner, &author, 1);
        proof {
            assert(transferred is Ok);
        }
        let memo = credit_memo(&author, caller);
        proof {
            lemma_push_contains(deeds0[id as int].creditors@, *caller, deeds0[id as int].author@);
            assert(distinct_names(self.deeds@[id as int].creditors@)) by {
                let s2 = self.deeds@[id as int].creditors@;
                assert forall|i2: int, j2: int| 0 <= i2 < j2 < s2.len() implies s2[i2]@
                    != s2[j2]@ by {
                    if j2 == s2.len() - 1 {
                        assert(deeds0[id as int].creditors@[i2]@ != caller@);
                    }
                }
            }
            assert forall|i: int|
                0 <= i < self.deeds@.len() implies (#[trigger] self.deeds@[i]).wf()
                && self.deeds@[i].id == i by {
                if i != id {
                    assert(self.deeds@[i] == deeds0[i]);
                }
            }
            assert forall|a: Seq<char>|
                #[trigger] seq_contains(self.donatable_accounts@, a) == is_deed_author(
                self.deeds@, a) by {
                if is_deed_author(deeds0, a) {
                    let i = choose|i: int| 0 <= i < deeds0.len() && deeds0[i].author@ == a;
                    assert(self.deeds@[i].author@ == a);
                }
                if is_deed_author(self.deeds@, a) {
                    let i = choose|i: int|
                        0 <= i < self.deeds@.len() && self.deeds@[i].author@ == a;
                    assert(deeds0[i].author@ == a);
                }
            }
        }
        Ok(CreditOutcome { refund, memo })
    }
}

/// Appends `a` to the creditor list of the deed at `idx`, changing nothing
/// else.
fn deed_add_creditor(deeds: &mut Vec<SocialDeed>, idx: usize, a: &String)
    requires
        idx < old(deeds)@.len(),
    ensures
        final(deeds)@.len() == old(deeds)@.len(),
        forall|j: int| 0 <= j < old(deeds)@.len() && j != idx ==> final(deeds)@[j] == old(
        deeds)@[j],
        final(deeds)@[idx as int].creditors@ == old(deeds)@[idx as int].creditors@.push(*a),
        final(deeds)@[idx as int].id == old(deeds)@[idx as int].id,
        final(deeds)@[idx as int].author == old(deeds)@[idx as int].author,
        final(deeds)@[idx as int].title == old(deeds)@[idx as int].title,
        final(deeds)@[idx as int].description == old(deeds)@[idx as int].description,
        final(deeds)@[idx as int].evidence == old(deeds)@[idx as int].evidence,
{
    deeds[idx].creditors.push(a.clone());
}

/// Whether the reward transfer for a credited deed can settle: the author is
/// not the reserve itself, both are registered, and the reserve can pay one
/// reward unit.
pub open spec fn spec_credit_transfer_ok(s: Contract, author: Seq<char>) -> bool {
    &&& author != s.owner@
    &&& s.token.spec_is_registered(s.owner@)
    &&& s.token.spec_is_registered(author)
    &&& s.token.spec_balance_of(s.owner@) >= 1
}

/// Why a `credit` call fails, if it does, in the order the checks run: a bad
/// id, the author crediting themselves, a duplicate credit, an unsettleable
/// reward transfer, and finally a payment below the storage fee.
pub open spec fn spec_credit_err(s: Contract, id: u64, caller: Seq<char>, deposit: u128) -> Option<
    Error,
> {
    if id >= s.deeds@.len() {
        Some(Error::ValidationError)
    } else {
        let deed = s.deeds@[id as int];
        if deed.author@ == caller {
            Some(Error::SelfCreditError)
        } else if deed.spec_is_creditor(caller) {
            Some(Error::DuplicateCreditError)
        } else if !spec_credit_transfer_ok(s, deed.author@) {
            Some(Error::AccountingError)
        } else if deposit < spec_creditor_storage(caller) * s.storage_unit_cost {
            Some(Error::InsufficientPaymentError)
        } else {
            None
        }
    }
}

impl Contract {
    /// A read-only page of the registry: up to `limit` deeds starting at
    /// `from_index`, in ascending id order, each projected together with its
    /// creditor count and whether `creditor_id` is among its creditors. A
    /// missing `from_index` means the beginning; a missing `limit` means no
    /// bound. Fails with `ValidationError` on an out-of-range start or a
    /// zero limit.
    pub fn social_deeds(
        &self,
        creditor_id: &String,
        from_index: Option<u64>,
        limit: Option<u64>,
    ) -> (r: Result<Vec<SerializableDeed>, Error>)
        ensures
            match spec_social_deeds_err(*self, from_index, limit) {
                Some(e) => r == Result::<Vec<SerializableDeed>, Error>::Err(e),
                None => {
                    let start = spec_page_start(from_index) as int;
                    let count = spec_page_count(*self, from_index, limit);
                    &&& r is Ok
                    &&& r->Ok_0@.len() == count
                    &&& forall|k: int|
                        0 <= k < count ==> spec_deed_view(
                            self.deeds@[start + k],
                            creditor_id@,
                            #[trigger] r->Ok_0@[k],
                        )
                },
            },
    {
        let start = match from_index {
            Some(v) => v,
            None => 0,
        };
        let n = self.deeds.len();
        if !(start < n as u64) {
            return Err(Error::ValidationError);
        }
        let lim = match limit {
            Some(v) => v,
            None => u64::MAX,
        };
        if lim == 0 {
            return Err(Error::ValidationError);
        }
        let avail = n as u64 - start;
        let count = if lim < avail {
            lim
        } else {
            avail
        };
        let mut out: Vec<SerializableDeed> = Vec::new();
        let mut k: u64 = 0;
        while k < count
            invariant
                n == self.deeds@.len(),
                start + count <= n,
                k <= count,
                out@.len() == k,
                forall|j: int|
                    0 <= j < k ==> spec_deed_view(
                        self.deeds@[start + j],
                        creditor_id@,
                        #[trigger] out@[j],
                    ),
            decreases count - k,
        {
            let idx = (start + k) as usize;
            let d = &self.deeds[idx];
            let is_cred = vec_contains(&d.creditors, creditor_id);
            let item = SerializableDeed::new(
                d.id,
                d.author.clone(),
                d.title.clone(),
                d.description.clone(),
                d.evidence.clone(),
                d.creditors.len() as u64,
                is_cred,
            );
            out.push(item);
            k = k + 1;
        }
        Ok(out)
    }
}

/// What a successful `donate` call hands back: the value transfers the host
/// is asked to perform, one per rewarded recipient, and the matching log
/// lines. Anything of the donation pool that flooring or the dust threshold
/// keeps from being paid out stays with the reserve; it is not refunded.
pub struct DonationOutcome {
    pub payouts: Vec<RefundAction>,
    pub logs: Vec<String>,
}

impl Contract {
    /// Converts an attached payment into a donation: a new deed records the
    /// donation, the storage fee is consumed, and the rest of the payment is
    /// distributed over all accounts that ever authored a deed — except the
    /// donor — proportionally to their token balance. Shares are computed
    /// with exact integer arithmetic, floored, and dropped when they do not
    /// exceed the dust threshold. A failed call leaves everything unchanged
    /// and asks for no transfer.
    pub fn donate(&mut self, donor: &String, attached_deposit: u128) -> (r: Result<
        DonationOutcome,
        Error,
    >)
        requires
            old(self).wf(),
        ensures
            final(self).wf(),
            match spec_donate_err(*old(self), donor@, attached_deposit) {
                Some(e) => r == Result::<DonationOutcome, Error>::Err(e) && *final(self) == *old(
                self),
                None => {
                    let remaining = (attached_deposit - spec_donate_used(
                        *old(self),
                        donor@,
                        attached_deposit,
                    ) * old(self).storage_unit_cost) as u128;
                    &&& r is Ok
                    &&& spec_donate_ok_state(*old(self), *final(self), *donor, attached_deposit)
                    &&& payouts_view(r->Ok_0.payouts@) == spec_payouts(
                        old(self).donatable_accounts@,
                        *old(self),
                        donor@,
                        remaining,
                    )
                    &&& r->Ok_0.logs@.len() == r->Ok_0.payouts@.len()
                    &&& forall|j: int|
                        0 <= j < r->Ok_0.logs@.len() ==> (#[trigger] r->Ok_0.logs@[j])@
                            == spec_donation_log(
                            r->Ok_0.payouts@[j].amount,
                            r->Ok_0.payouts@[j].recipient@,
                        )
                },
            },
    {
        let title = "Donation to all users".to_owned();
        let description = donation_description(donor, attached_deposit);
        let evidence =
            "https://gifimage.net/wp-content/uploads/2017/10/donation-gif-10.gif".to_owned();
        let newly = !vec_contains(&self.donatable_accounts, donor);
        let do_len = donor.as_str().unicode_len();
        let t_len = title.as_str().unicode_len();
        let d_len = description.as_str().unicode_len();
        let e_len = evidence.as_str().unicode_len();
        let mut used: u128 = do_len as u128 + t_len as u128 + d_len as u128 + e_len as u128
            + DEED_RECORD_OVERHEAD as u128;
        if newly {
            used = used + (do_len as u128 + ACCOUNT_RECORD_OVERHEAD as u128);
        }
        proof {
            assert(used as int == spec_donate_used(*self, donor@, attached_deposit));
        }
        let remaining = match calculate_and_check_deposit(
            used,
            self.storage_unit_cost,
            attached_deposit,
        ) {
            Ok(rem) => rem,
            Err(e) => {
                return Err(e);
            },
        };
        let total = self.token.total_supply();
        let bal_owner = self.token.balance_of(&self.owner);
        let bal_donor = self.token.balance_of(donor);
        proof {
            lemma_balance_le_sum(self.token.accounts@, self.owner@);
        }
        let circulating = match (total - bal_owner).checked_sub(bal_donor) {
            Some(c) => c,
            None => {
                proof {
                    assert(spec_circulating(*self, donor@) < 0);
                }
                return Err(Error::AccountingError);
            },
        };
        if circulating == 0 {
            proof {
                assert(spec_circulating(*self, donor@) == 0);
            }
            return Err(Error::AccountingError);
        }
        let mut payouts: Vec<RefundAction> = Vec::new();
        let mut logs: Vec<String> = Vec::new();
        let nacc = self.donatable_accounts.len();
        let mut k: usize = 0;
        while k < nacc
            invariant
                old(self).wf(),
                *self == *old(self),
                nacc == self.donatable_accounts@.len(),
                k <= nacc,
                circulating > 0,
                circulating as int == spec_circulating(*self, donor@),
                attached_deposit >= spec_donate_used(*self, donor@, attached_deposit)
                    * self.storage_unit_cost,
                remaining == (attached_deposit - spec_donate_used(*self, donor@, attached_deposit)
                    * self.storage_unit_cost) as u128,
                payouts_view(payouts@) == spec_payouts(
                    self.donatable_accounts@.take(k as int),
                    *self,
                    donor@,
                    remaining,
                ),
                logs@.len() == payouts@.len(),
                forall|j: int|
                    0 <= j < logs@.len() ==> (#[trigger] logs@[j])@ == spec_donation_log(
                        payouts@[j].amount,
                        payouts@[j].recipient@,
                    ),
                forall|j: int|
                    0 <= j < k && (#[trigger] self.donatable_accounts@[j])@ != donor@
                        ==> spec_share(*self, donor@, remaining, self.donatable_accounts@[j]@)
                        <= u128::MAX,
            decreases nacc - k,
        {
            let ghost taken0 = self.donatable_accounts@.take(k as int);
            let ghost pv0 = payouts_view(payouts@);
            let a = &self.donatable_accounts[k];
            if !(*a == *donor) {
                let bal = self.token.balance_of(a);
                let share = match mul_div(bal, remaining, circulating) {
                    Some(s) => s,
                    None => {
                        proof {
                            assert(self.donatable_accounts@[k as int]@ != donor@
                                && spec_share(*self, donor@, remaining,
                            self.donatable_accounts@[k as int]@) > u128::MAX);
                            assert(spec_share_overflows(*self, donor@, remaining));
                        }
                        return Err(Error::AccountingError);
                    },
                };
                if share > DONATION_DUST_THRESHOLD {
                    payouts.push(RefundAction { recipient: a.clone(), amount: share });
                    logs.push(donation_log(share, a));
                    proof {
                        assert(payouts_view(payouts@) =~= pv0.push((a@, share)));
                    }
                }
            }
            k = k + 1;
            proof {
                let taken1 = self.donatable_accounts@.take(k as int);
                assert(taken1.drop_last() =~= taken0);
                assert(taken1.last() == self.donatable_accounts@[k - 1]);
                assert(payouts_view(payouts@) =~= spec_payouts(taken1, *self, donor@, remaining));
            }
        }
        proof {
            assert(self.donatable_accounts@.take(nacc as int) =~= self.donatable_accounts@);
            assert(!spec_share_overflows(*self, donor@, remaining));
        }
        let ghost donatable0 = self.donatable_accounts@;
        let ghost deeds0 = self.deeds@;
        let id = self.deeds.len() as u64;
        if newly {
            self.donatable_accounts.push(donor.clone());
        }
        let deed = SocialDeed::new(id, donor.clone(), title, description, evidence);
        self.deeds.push(deed);
        proof {
            assert forall|i: int|
                0 <= i < self.deeds@.len() implies (#[trigger] self.deeds@[i]).wf()
                && self.deeds@[i].id == i by {
                if i < deeds0.len() {
                    assert(self.deeds@[i] == deeds0[i]);
                }
            }
            if newly {
                assert forall|i: int, j: int|
                    0 <= i < j < self.donatable_accounts@.len() implies self.donatable_accounts@[
                    i]@ != self.donatable_accounts@[j]@ by {
                    if j == self.donatable_accounts@.len() - 1 {
                        assert(donatable0[i]@ != self.deeds@.last().author@);
                    }
                }
            }
            let d = self.deeds@.last();
            assert forall|a: Seq<char>|
                #[trigger] seq_contains(self.donatable_accounts@, a) == is_deed_author(
                self.deeds@, a) by {
                lemma_push_author(deeds0, d, a);
                if newly {
                    lemma_push_contains(donatable0, d.author, a);
                } else {
                    if a == d.author@ {
                        assert(seq_contains(donatable0, a));
                    }
                }
            }
        }
        Ok(DonationOutcome { payouts, logs })
    }
}

/// The fixed title of the deed that records a donation.
pub open spec fn spec_donation_title() -> Seq<char> {
    "Donation to all users"@
}

/// The fixed informational proof reference of a donation deed.
pub open spec fn spec_donation_evidence() -> Seq<char> {
    "https://gifimage.net/wp-content/uploads/2017/10/donation-gif-10.gif"@
}

/// The storage units one `donate` call occupies: the synthesized donation
/// record plus, for a first-time donor, the new donatable-set entry.
pub open spec fn spec_donate_used(s: Contract, donor: Seq<char>, deposit: u128) -> int {
    spec_deed_storage(
        donor,
        spec_donation_title(),
        spec_donation_description(donor, deposit),
        spec_donation_evidence(),
    ) + if seq_contains(s.donatable_accounts@, donor) {
        0int
    } else {
        spec_account_storage(donor)
    }
}

/// The donation denominator: the supply held neither by the reserve nor by
/// the donor.
pub open spec fn spec_circulating(s: Contract, donor: Seq<char>) -> int {
    s.token.total - s.token.spec_balance_of(s.owner@) - s.token.spec_balance_of(donor)
}

/// The exact floored share owed to `a` out of `remaining`.
pub open spec fn spec_share(s: Contract, donor: Seq<char>, remaining: u128, a: Seq<char>) -> int {
    (s.token.spec_balance_of(a) * remaining) / spec_circulating(s, donor)
}

/// Whether some eligible recipient's share exceeds what a balance can hold.
pub open spec fn spec_share_overflows(s: Contract, donor: Seq<char>, remaining: u128) -> bool {
    exists|k: int|
        0 <= k < s.donatable_accounts@.len() && (#[trigger] s.donatable_accounts@[k])@ != donor
            && spec_share(s, donor, remaining, s.donatable_accounts@[k]@) > u128::MAX
}

/// Why a `donate` call fails, if it does, in the order the checks run: a
/// payment below the storage fee, then a donation denominator that is zero
/// or negative, then a share that overflows.
pub open spec fn spec_donate_err(s: Contract, donor: Seq<char>, deposit: u128) -> Option<Error> {
    let used = spec_donate_used(s, donor, deposit);
    if deposit < used * s.storage_unit_cost {
        Some(Error::InsufficientPaymentError)
    } else {
        let remaining = (deposit - used * s.storage_unit_cost) as u128;
        if spec_circulating(s, donor) <= 0 {
            Some(Error::AccountingError)
        } else if spec_share_overflows(s, donor, remaining) {
            Some(Error::AccountingError)
        } else {
            None
        }
    }
}

/// The payouts as plain pairs of recipient name and amount.
pub open spec fn payouts_view(ps: Seq<RefundAction>) -> Seq<(Seq<char>, u128)> {
    ps.map_values(|p: RefundAction| (p.recipient@, p.amount))
}

/// The payouts a donation owes, walking the donatable accounts in order:
/// every account other than the donor whose floored proportional share
/// exceeds the dust threshold, paired with that share.
pub open spec fn spec_payouts(
    accts: Seq<String>,
    s: Contract,
    donor: Seq<char>,
    remaining: u128,
) -> Seq<(Seq<char>, u128)>
    decreases accts.len(),
{
    if accts.len() == 0 {
        Seq::empty()
    } else {
        let rest = spec_payouts(accts.drop_last(), s, donor, remaining);
        let a = accts.last()@;
        let share = spec_share(s, donor, remaining, a);
        if a != donor && share > DONATION_DUST_THRESHOLD {
            rest.push((a, share as u128))
        } else {
            rest
        }
    }
}

/// The page start that `social_deeds` uses: the given index, or zero.
pub open spec fn spec_page_start(from_index: Option<u64>) -> u64 {
    match from_index {
        Some(v) => v,
        None => 0,
    }
}

/// The page bound that `social_deeds` uses: the given limit, or no bound.
pub open spec fn spec_page_limit(limit: Option<u64>) -> u64 {
    match limit {
        Some(v) => v,
        None => u64::MAX,
    }
}

/// How many entries a valid `social_deeds` query returns: the rest of the
/// registry from the start index, capped by the limit.
pub open spec fn spec_page_count(s: Contract, from_index: Option<u64>, limit: Option<u64>) -> int {
    let rest = s.deeds@.len() - spec_page_start(from_index);
    if spec_page_limit(limit) < rest {
        spec_page_limit(limit) as int
    } else {
        rest
    }
}

/// Why a `social_deeds` query fails, if it does, in the order the checks
/// run: a start index past the registry, then a zero limit.
pub open spec fn spec_social_deeds_err(
    s: Contract,
    from_index: Option<u64>,
    limit: Option<u64>,
) -> Option<Error> {
    if spec_page_start(from_index) >= s.deeds@.len() {
        Some(Error::ValidationError)
    } else if spec_page_limit(limit) == 0 {
        Some(Error::ValidationError)
    } else {
        None
    }
}

/// Whether `v` is the faithful projection of deed `d` for the queried
/// account `creditor`.
pub open spec fn spec_deed_view(d: SocialDeed, creditor: Seq<char>, v: SerializableDeed) -> bool {
    &&& v.id == d.id
    &&& v.author@ == d.author@
    &&& v.title@ == d.title@
    &&& v.description@ == d.description@
    &&& v.evidence@ == d.evidence@
    &&& v.creditors == d.creditors@.len()
    &&& v.is_creditor == d.spec_is_creditor(creditor)
}

/// The storage units one `add_deed` call occupies: the new record plus, for
/// a first-time author, the new donatable-set entry.
pub open spec fn spec_add_deed_used(
    s: Contract,
    author: Seq<char>,
    title: Seq<char>,
    description: Seq<char>,
    evidence: Seq<char>,
) -> int {
    spec_deed_storage(author, title, description, evidence) + if seq_contains(
        s.donatable_accounts@,
        author,
    ) {
        0int
    } else {
        spec_account_storage(author)
    }
}

/// Why an `add_deed` call fails, if it does: an author other than the
/// caller, then a payment below the required storage fee.
pub open spec fn spec_add_deed_err(
    s: Contract,
    author: Seq<char>,
    title: Seq<char>,
    description: Seq<char>,
    evidence: Seq<char>,
    caller: Seq<char>,
    deposit: u128,
) -> Option<Error> {
    if author != caller {
        Some(Error::AuthorizationError)
    } else if deposit < spec_add_deed_used(s, author, title, description, evidence)
        * s.storage_unit_cost {
        Some(Error::InsufficientPaymentError)
    } else {
        None
    }
}

/// How a successful `add_deed` call changes the state: a new deed with the
/// given fields and the next id is appended, the author joins the donatable
/// set if not yet in it, and nothing else moves.
pub open spec fn spec_add_deed_ok_state(
    pre: Contract,
    post: Contract,
    author: String,
    title: String,
    description: String,
    evidence: String,
) -> bool {
    &&& post.deeds@.len() == pre.deeds@.len() + 1
    &&& forall|j: int| 0 <= j < pre.deeds@.len() ==> post.deeds@[j] == pre.deeds@[j]
    &&& post.deeds@.last().id == pre.deeds@.len()
    &&& post.deeds@.last().author == author
    &&& post.deeds@.last().title == title
    &&& post.deeds@.last().description == description
    &&& post.deeds@.last().evidence == evidence
    &&& post.deeds@.last().creditors@.len() == 0
    &&& post.donatable_accounts@ == if seq_contains(pre.donatable_accounts@, author@) {
        pre.donatable_accounts@
    } else {
        pre.donatable_accounts@.push(author)
    }
    &&& post.token == pre.token
    &&& post.owner == pre.owner
    &&& post.storage_unit_cost == pre.storage_unit_cost
}

/// How a successful `credit` call changes the state: the caller joins the
/// creditor list of deed `id`, one reward unit moves from the reserve to
/// that deed's author, and nothing else moves.
pub open spec fn spec_credit_ok_state(pre: Contract, post: Contract, id: u64, caller: String) -> bool {
    &&& id < pre.deeds@.len()
    &&& post.deeds@.len() == pre.deeds@.len()
    &&& forall|j: int| 0 <= j < pre.deeds@.len() && j != id ==> post.deeds@[j] == pre.deeds@[j]
    &&& post.deeds@[id as int].creditors@ == pre.deeds@[id as int].creditors@.push(caller)
    &&& post.deeds@[id as int].id == pre.deeds@[id as int].id
    &&& post.deeds@[id as int].author == pre.deeds@[id as int].author
    &&& post.deeds@[id as int].title == pre.deeds@[id as int].title
    &&& post.deeds@[id as int].description == pre.deeds@[id as int].description
    &&& post.deeds@[id as int].evidence == pre.deeds@[id as int].evidence
    &&& post.token.total == pre.token.total
    &&& forall|x: Seq<char>|
        post.token.spec_is_registered(x) == pre.token.spec_is_registered(x)
    &&& forall|x: Seq<char>|
        post.token.spec_balance_of(x) == (if x == pre.deeds@[id as int].author@ {
            pre.token.spec_balance_of(x) + 1
        } else if x == pre.owner@ {
            pre.token.spec_balance_of(x) - 1
        } else {
            pre.token.spec_balance_of(x) as int
        })
    &&& post.donatable_accounts == pre.donatable_accounts
    &&& post.owner == pre.owner
    &&& post.storage_unit_cost == pre.storage_unit_cost
}

/// How a successful `donate` call changes the state: a donation deed with
/// the synthesized text and the next id is appended, the donor joins the
/// donatable set if not yet in it, and the token ledger does not move — the
/// payouts leave the attached payment, not the ledger.
pub open spec fn spec_donate_ok_state(
    pre: Contract,
    post: Contract,
    donor: String,
    deposit: u128,
) -> bool {
    &&& post.deeds@.len() == pre.deeds@.len() + 1
    &&& forall|j: int| 0 <= j < pre.deeds@.len() ==> post.deeds@[j] == pre.deeds@[j]
    &&& post.deeds@.last().id == pre.deeds@.len()
    &&& post.deeds@.last().author@ == donor@
    &&& post.deeds@.last().title@ == spec_donation_title()
    &&& post.deeds@.last().description@ == spec_donation_description(donor@, deposit)
    &&& post.deeds@.last().evidence@ == spec_donation_evidence()
    &&& post.deeds@.last().creditors@.len() == 0
    &&& post.donatable_accounts@ == if seq_contains(pre.donatable_accounts@, donor@) {
        pre.donatable_accounts@
    } else {
        pre.donatable_accounts@.push(donor)
    }
    &&& post.token == pre.token
    &&& post.owner == pre.owner
    &&& post.storage_unit_cost == pre.storage_unit_cost
}

/// Membership in a pushed account list: the new name, or any old member.
pub proof fn lemma_push_contains(s: Seq<String>, e: String, a: Seq<char>)
    ensures
        seq_contains(s.push(e), a) == (seq_contains(s, a) || e@ == a),
{
    if seq_contains(s, a) {
        let i = choose|i: int| 0 <= i < s.len() && s[i]@ == a;
        assert(s.push(e)[i]@ == a);
    }
    if e@ == a {
        assert(s.push(e)[s.len() as int]@ == a);
    }
    if seq_contains(s.push(e), a) && !(seq_contains(s, a) || e@ == a) {
        let i = choose|i: int| 0 <= i < s.push(e).len() && s.push(e)[i]@ == a;
        assert(s[i]@ == a);
    }
}

/// Authorship in a grown registry: the new deed's author, or any old author.
pub proof fn lemma_push_author(deeds: Seq<SocialDeed>, d: SocialDeed, a: Seq<char>)
    ensures
        is_deed_author(deeds.push(d), a) == (is_deed_author(deeds, a) || d.author@ == a),
{
    if is_deed_author(deeds, a) {
        let i = choose|i: int| 0 <= i < deeds.len() && deeds[i].author@ == a;
        assert(deeds.push(d)[i].author@ == a);
    }
    if d.author@ == a {
        assert(deeds.push(d)[deeds.len() as int].author@ == a);
    }
    if is_deed_author(deeds.push(d), a) && !(is_deed_author(deeds, a) || d.author@ == a) {
        let i = choose|i: int| 0 <= i < deeds.push(d).len() && deeds.push(d)[i].author@ == a;
        assert(deeds[i].author@ == a);
    }
}

} // verus!
