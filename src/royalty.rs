use vstd::prelude::*;
use vstd::arithmetic::div_mod::lemma_fundamental_div_mod;
use vstd::arithmetic::div_mod::lemma_fundamental_div_mod_converse_div;

use crate::error::NftError;
use crate::events::SetRoyalty;
use crate::state::{mutation_check, ExtensionsView, ONE_YOCTO};
use crate::AccountId;

verus! {

/// Shares are stated in basis points: this many make up 100%.
pub const ROYALTY_DENOMINATOR: u32 = 10000;

/// The most beneficiaries a royalty schedule may name.
pub const MAX_ROYALTY_ENTRIES: usize = 6;

/// A royalty schedule: each beneficiary with its share in basis points.
/// A well-formed schedule names each beneficiary at most once.
pub struct Royalty {
    pub entries: Vec<(AccountId, u32)>,
}

impl View for Royalty {
    type V = Seq<(Seq<char>, u32)>;

    open spec fn view(&self) -> Seq<(Seq<char>, u32)> {
        self.entries@.map_values(|e: (AccountId, u32)| (e.0@, e.1))
    }
}

impl Royalty {
    /// The empty schedule.
    pub fn new() -> (r: Royalty)
        ensures
            r@ == Seq::<(Seq<char>, u32)>::empty(),
    {
        Royalty { entries: Vec::new() }
    }

    /// The number of beneficiaries.
    pub fn len(&self) -> (r: usize)
        ensures
            r == self@.len(),
    {
        self.entries.len()
    }

    /// Sets the share of `account`: replaces its entry where it has one,
    /// else appends one.
    pub fn insert(&mut self, account: AccountId, share: u32)
        requires
            keys_unique(old(self)@),
        ensures
            keys_unique(final(self)@),
            entries_map(final(self)@) == entries_map(old(self)@).insert(account@, share),
            (exists|i: int| 0 <= i < old(self)@.len() && old(self)@[i].0 == account@) ==> exists|
                i: int,
            |
                0 <= i < old(self)@.len() && old(self)@[i].0 == account@ && final(self)@
                    == old(self)@.update(i, (account@, share)),
            (forall|i: int| 0 <= i < old(self)@.len() ==> old(self)@[i].0 != account@) ==> final(self)@ == old(self)@.push((account@, share)),
    {
        let n = self.entries.len();
        let mut i: usize = 0;
        while i < n
            invariant
                n == self@.len(),
                i <= n,
                self@ == old(self)@,
                keys_unique(self@),
                forall|j: int| 0 <= j < i ==> self@[j].0 != account@,
            decreases n - i,
        {
            if self.entries[i].0 == account {
                let ghost before = self@;
                self.entries.set(i, (account, share));
                proof {
                    assert(self@ =~= before.update(i as int, (account@, share)));
                    lemma_update_map(before, i as int, share);
                }
                return;
            }
            i = i + 1;
        }
        let ghost before = self@;
        self.entries.push((account, share));
        proof {
            assert(self@ =~= before.push((account@, share)));
            assert(self@.drop_last() =~= before);
            assert(keys_unique(self@)) by {
                assert forall|a: int, b: int|
                    0 <= a < self@.len() && 0 <= b < self@.len() && a != b implies #[trigger] self@[a].0
                    != #[trigger] self@[b].0 by {
                    if a < before.len() && b < before.len() {
                        assert(self@[a] == before[a] && self@[b] == before[b]);
                    } else if a < before.len() {
                        assert(self@[a] == before[a]);
                    } else {
                        assert(self@[b] == before[b]);
                    }
                }
            }
        }
    }

    /// An entry-by-entry copy.
    pub fn copy(&self) -> (r: Royalty)
        ensures
            r@ == self@,
    {
        let mut entries: Vec<(AccountId, u32)> = Vec::new();
        let n = self.entries.len();
        let mut i: usize = 0;
        while i < n
            invariant
                n == self@.len(),
                i <= n,
                (Royalty { entries })@ == self@.subrange(0, i as int),
            decreases n - i,
        {
            let ghost before = Royalty { entries };
            let account = self.entries[i].0.clone();
            let share = self.entries[i].1;
            entries.push((account, share));
            proof {
                assert((Royalty { entries })@ =~= before@.push((account@, share)));
                assert((Royalty { entries })@ =~= self@.subrange(0, i + 1));
            }
            i = i + 1;
        }
        proof {
            assert(self@.subrange(0, n as int) =~= self@);
        }
        Royalty { entries }
    }
}

/// What a buyer owes each account for one sale.
pub struct Payout {
    pub payout: Vec<(AccountId, u128)>,
}

impl View for Payout {
    type V = Seq<(Seq<char>, int)>;

    open spec fn view(&self) -> Seq<(Seq<char>, int)> {
        self.payout@.map_values(|e: (AccountId, u128)| (e.0@, e.1 as int))
    }
}

/// The royalty schedule as returned to viewers.
pub struct JsonRoyalty {
    pub royalty: Royalty,
}

/// No account appears twice among the entries.
pub open spec fn keys_unique<V>(s: Seq<(Seq<char>, V)>) -> bool {
    forall|i: int, j: int|
        0 <= i < s.len() && 0 <= j < s.len() && i != j ==> #[trigger] s[i].0 != #[trigger] s[j].0
}

/// The mapping that a sequence of entries describes.
pub open spec fn entries_map<V>(s: Seq<(Seq<char>, V)>) -> Map<Seq<char>, V>
    decreases s.len(),
{
    if s.len() == 0 {
        Map::empty()
    } else {
        entries_map(s.drop_last()).insert(s.last().0, s.last().1)
    }
}

/// The sum of all shares.
pub open spec fn share_total(s: Seq<(Seq<char>, u32)>) -> int
    decreases s.len(),
{
    if s.len() == 0 {
        0
    } else {
        share_total(s.drop_last()) + s.last().1
    }
}

/// The sum of the shares of every beneficiary other than `owner`.
pub open spec fn perpetual_total(s: Seq<(Seq<char>, u32)>, owner: Seq<char>) -> int
    decreases s.len(),
{
    if s.len() == 0 {
        0
    } else if s.last().0 == owner {
        perpetual_total(s.drop_last(), owner)
    } else {
        perpetual_total(s.drop_last(), owner) + s.last().1
    }
}

/// How many entries name a beneficiary other than `owner`.
pub open spec fn perpetual_count(s: Seq<(Seq<char>, u32)>, owner: Seq<char>) -> nat
    decreases s.len(),
{
    if s.len() == 0 {
        0
    } else if s.last().0 == owner {
        perpetual_count(s.drop_last(), owner)
    } else {
        perpetual_count(s.drop_last(), owner) + 1
    }
}

/// A schedule that may be stored: at most six entries, shares below 100%.
pub open spec fn schedule_valid(s: Seq<(Seq<char>, u32)>) -> bool {
    s.len() <= MAX_ROYALTY_ENTRIES && share_total(s) < ROYALTY_DENOMINATOR
}

/// The part of `amount` that a share of `share` basis points is owed, rounded down.
pub open spec fn portion(share: int, amount: int) -> int {
    share * amount / (ROYALTY_DENOMINATOR as int)
}

/// The payouts of the beneficiaries other than `owner`, in schedule order.
pub open spec fn perpetual_payouts(s: Seq<(Seq<char>, u32)>, owner: Seq<char>, amount: int) -> Seq<
    (Seq<char>, int),
>
    decreases s.len(),
{
    if s.len() == 0 {
        Seq::empty()
    } else if s.last().0 == owner {
        perpetual_payouts(s.drop_last(), owner, amount)
    } else {
        perpetual_payouts(s.drop_last(), owner, amount).push(
            (s.last().0, portion(s.last().1 as int, amount)),
        )
    }
}

/// The owner's residual share: 100% less every other beneficiary's share.
pub open spec fn owner_share(s: Seq<(Seq<char>, u32)>, owner: Seq<char>) -> int {
    ROYALTY_DENOMINATOR - perpetual_total(s, owner)
}

/// The full split of `amount`: every other beneficiary's portion, then the owner's.
pub open spec fn payout_entries(s: Seq<(Seq<char>, u32)>, owner: Seq<char>, amount: int) -> Seq<
    (Seq<char>, int),
> {
    perpetual_payouts(s, owner, amount).push((owner, portion(owner_share(s, owner), amount)))
}

/// The sum of the amounts of a payout.
pub open spec fn payout_sum(p: Seq<(Seq<char>, int)>) -> int
    decreases p.len(),
{
    if p.len() == 0 {
        0
    } else {
        payout_sum(p.drop_last()) + p.last().1
    }
}

proof fn lemma_update_map(s: Seq<(Seq<char>, u32)>, i: int, share: u32)
    requires
        keys_unique(s),
        0 <= i < s.len(),
    ensures
        keys_unique(s.update(i, (s[i].0, share))),
        entries_map(s.update(i, (s[i].0, share))) == entries_map(s).insert(s[i].0, share),
    decreases s.len(),
{
    let t = s.update(i, (s[i].0, share));
    assert(keys_unique(t)) by {
        assert forall|a: int, b: int| 0 <= a < t.len() && 0 <= b < t.len() && a != b implies #[trigger] t[a].0
            != #[trigger] t[b].0 by {
            assert(t[a].0 == s[a].0 && t[b].0 == s[b].0);
        }
    }
    if i == s.len() - 1 {
        assert(t.drop_last() =~= s.drop_last());
        assert(entries_map(t) =~= entries_map(s).insert(s[i].0, share));
    } else {
        let d = s.drop_last();
        assert(keys_unique(d));
        lemma_update_map(d, i, share);
        assert(t.drop_last() =~= d.update(i, (d[i].0, share)));
        assert(s.last().0 != s[i].0);
        assert(entries_map(t) =~= entries_map(s).insert(s[i].0, share));
    }
}

proof fn lemma_share_total_prefix(s: Seq<(Seq<char>, u32)>, i: int)
    requires
        0 <= i <= s.len(),
    ensures
        share_total(s.subrange(0, i)) <= share_total(s),
    decreases s.len() - i,
{
    if i < s.len() {
        lemma_share_total_prefix(s, i + 1);
        assert(s.subrange(0, i + 1).drop_last() =~= s.subrange(0, i));
    } else {
        assert(s.subrange(0, i) =~= s);
    }
}

proof fn lemma_perpetual_le_total(s: Seq<(Seq<char>, u32)>, owner: Seq<char>)
    ensures
        0 <= perpetual_total(s, owner) <= share_total(s),
    decreases s.len(),
{
    if s.len() > 0 {
        lemma_perpetual_le_total(s.drop_last(), owner);
    }
}

proof fn lemma_portion_bounds(share: int, amount: int)
    requires
        0 <= share,
        0 <= amount,
    ensures
        0 <= share * amount - 10000 * portion(share, amount) <= 9999,
        amount % 10000 == 0 ==> 10000 * portion(share, amount) == share * amount,
{
    lemma_fundamental_div_mod(share * amount, 10000);
    if amount % 10000 == 0 {
        lemma_fundamental_div_mod(amount, 10000);
        let k = amount / 10000;
        assert(share * amount == (share * k) * 10000 + 0) by (nonlinear_arith)
            requires
                amount == 10000 * k + 0,
        ;
        lemma_fundamental_div_mod_converse_div(share * amount, 10000, share * k, 0);
        assert(10000 * (share * k) == share * amount) by (nonlinear_arith)
            requires
                share * amount == (share * k) * 10000 + 0,
        ;
    }
}

proof fn lemma_perpetual_payouts_sum(s: Seq<(Seq<char>, u32)>, owner: Seq<char>, amount: int)
    requires
        0 <= amount,
    ensures
        0 <= perpetual_total(s, owner) * amount - 10000 * payout_sum(
            perpetual_payouts(s, owner, amount),
        ) <= 9999 * perpetual_count(s, owner),
        amount % 10000 == 0 ==> 10000 * payout_sum(perpetual_payouts(s, owner, amount))
            == perpetual_total(s, owner) * amount,
    decreases s.len(),
{
    if s.len() > 0 {
        let d = s.drop_last();
        lemma_perpetual_payouts_sum(d, owner, amount);
        if s.last().0 != owner {
            let v = s.last().1 as int;
            let prev = perpetual_payouts(d, owner, amount);
            let e = (s.last().0, portion(v, amount));
            assert(prev.push(e).drop_last() =~= prev);
            lemma_portion_bounds(v, amount);
            let t = perpetual_total(d, owner);
            assert((t + v) * amount == t * amount + v * amount) by (nonlinear_arith);
        }
    }
}

/// The split never pays out more than the sale amount; it falls short by at
/// most one unit for each beneficiary other than the owner, and by nothing
/// when the amount is a whole multiple of 10000.
pub proof fn lemma_payout_conserved(s: Seq<(Seq<char>, u32)>, owner: Seq<char>, amount: u128)
    requires
        schedule_valid(s),
    ensures
        payout_sum(payout_entries(s, owner, amount as int)) <= amount,
        amount - payout_sum(payout_entries(s, owner, amount as int)) <= perpetual_count(s, owner),
        amount % 10000 == 0 ==> payout_sum(payout_entries(s, owner, amount as int)) == amount,
        keys_unique(s) ==> perpetual_count(s, owner) == s.len() - (if entries_map(s).dom().contains(
            owner,
        ) {
            1int
        } else {
            0int
        }),
{
    if keys_unique(s) {
        lemma_perpetual_count(s, owner);
    }
    let a = amount as int;
    let prev = perpetual_payouts(s, owner, a);
    let r = owner_share(s, owner);
    let e = (owner, portion(r, a));
    assert(payout_entries(s, owner, a).drop_last() =~= prev);
    lemma_perpetual_payouts_sum(s, owner, a);
    lemma_perpetual_le_total(s, owner);
    lemma_portion_bounds(r, a);
    let t = perpetual_total(s, owner);
    let p = payout_sum(prev);
    let q = portion(r, a);
    let n = perpetual_count(s, owner) as int;
    assert(t * a + r * a == 10000 * a) by (nonlinear_arith)
        requires
            r == 10000 - t,
    ;
    assert(a - (p + q) <= n) by (nonlinear_arith)
        requires
            0 <= t * a - 10000 * p <= 9999 * n,
            0 <= r * a - 10000 * q <= 9999,
            t * a + r * a == 10000 * a,
            0 <= n,
    ;
}

proof fn lemma_perpetual_count(s: Seq<(Seq<char>, u32)>, owner: Seq<char>)
    requires
        keys_unique(s),
    ensures
        perpetual_count(s, owner) == s.len() - (if entries_map(s).dom().contains(owner) {
            1int
        } else {
            0int
        }),
    decreases s.len(),
{
    if s.len() > 0 {
        let d = s.drop_last();
        assert(keys_unique(d));
        lemma_perpetual_count(d, owner);
        lemma_entries_map_dom(d, owner);
        if s.last().0 == owner && entries_map(d).dom().contains(owner) {
            let i = choose|i: int| 0 <= i < d.len() && #[trigger] d[i].0 == owner;
            assert(s[i].0 == owner);
        }
    }
}

proof fn lemma_entries_map_dom<V>(s: Seq<(Seq<char>, V)>, k: Seq<char>)
    ensures
        entries_map(s).dom().contains(k) <==> exists|i: int| 0 <= i < s.len() && #[trigger] s[i].0 == k,
    decreases s.len(),
{
    if s.len() > 0 {
        let d = s.drop_last();
        lemma_entries_map_dom(d, k);
        if entries_map(d).dom().contains(k) {
            let i = choose|i: int| 0 <= i < d.len() && #[trigger] d[i].0 == k;
            assert(s[i].0 == k);
        }
        if exists|i: int| 0 <= i < s.len() && #[trigger] s[i].0 == k {
            let i = choose|i: int| 0 <= i < s.len() && #[trigger] s[i].0 == k;
            if i < s.len() - 1 {
                assert(d[i].0 == k);
            }
        }
    }
}

proof fn lemma_entries_map_value<V>(s: Seq<(Seq<char>, V)>, i: int)
    requires
        keys_unique(s),
        0 <= i < s.len(),
    ensures
        entries_map(s).dom().contains(s[i].0),
        entries_map(s)[s[i].0] == s[i].1,
    decreases s.len(),
{
    if i < s.len() - 1 {
        let d = s.drop_last();
        assert(keys_unique(d));
        assert(d[i] == s[i]);
        lemma_entries_map_value(d, i);
        assert(s.last().0 != s[i].0);
    }
}

proof fn lemma_remove_entry<V>(s: Seq<(Seq<char>, V)>, j: int)
    requires
        keys_unique(s),
        0 <= j < s.len(),
    ensures
        keys_unique(s.remove(j)),
        entries_map(s.remove(j)) == entries_map(s).remove(s[j].0),
    decreases s.len(),
{
    let t = s.remove(j);
    assert(keys_unique(t)) by {
        assert forall|a: int, b: int| 0 <= a < t.len() && 0 <= b < t.len() && a != b implies #[trigger] t[a].0
            != #[trigger] t[b].0 by {
            let a2 = if a < j { a } else { a + 1 };
            let b2 = if b < j { b } else { b + 1 };
            assert(t[a] == s[a2] && t[b] == s[b2]);
        }
    }
    let d = s.drop_last();
    assert(keys_unique(d));
    if j == s.len() - 1 {
        assert(t =~= d);
        lemma_entries_map_dom(d, s[j].0);
        if entries_map(d).dom().contains(s[j].0) {
            let i = choose|i: int| 0 <= i < d.len() && #[trigger] d[i].0 == s[j].0;
            assert(s[i].0 == s[j].0);
        }
        assert(entries_map(t) =~= entries_map(s).remove(s[j].0));
    } else {
        lemma_remove_entry(d, j);
        assert(t.drop_last() =~= d.remove(j));
        assert(t.last() == s.last());
        assert(d[j] == s[j]);
        assert(s.last().0 != s[j].0);
        assert(entries_map(t) =~= entries_map(s).remove(s[j].0));
    }
}

proof fn lemma_perpetual_total_remove(s: Seq<(Seq<char>, u32)>, owner: Seq<char>, j: int)
    requires
        0 <= j < s.len(),
    ensures
        perpetual_total(s, owner) == perpetual_total(s.remove(j), owner) + (if s[j].0 == owner {
            0
        } else {
            s[j].1 as int
        }),
    decreases s.len(),
{
    let d = s.drop_last();
    if j == s.len() - 1 {
        assert(s.remove(j) =~= d);
    } else {
        lemma_perpetual_total_remove(d, owner, j);
        assert(s.remove(j).drop_last() =~= d.remove(j));
        assert(s.remove(j).last() == s.last());
        assert(d[j] == s[j]);
    }
}

proof fn lemma_perpetual_total_same_map(
    s1: Seq<(Seq<char>, u32)>,
    s2: Seq<(Seq<char>, u32)>,
    owner: Seq<char>,
)
    requires
        keys_unique(s1),
        keys_unique(s2),
        entries_map(s1) == entries_map(s2),
    ensures
        perpetual_total(s1, owner) == perpetual_total(s2, owner),
    decreases s1.len(),
{
    if s1.len() == 0 {
        if s2.len() > 0 {
            lemma_entries_map_value(s2, 0);
        }
    } else {
        let last = s1.len() - 1;
        let k = s1[last].0;
        lemma_entries_map_value(s1, last);
        lemma_entries_map_dom(s2, k);
        let j = choose|j: int| 0 <= j < s2.len() && #[trigger] s2[j].0 == k;
        lemma_entries_map_value(s2, j);
        lemma_remove_entry(s1, last);
        lemma_remove_entry(s2, j);
        assert(s1.remove(last) =~= s1.drop_last());
        lemma_perpetual_total_same_map(s1.drop_last(), s2.remove(j), owner);
        lemma_perpetual_total_remove(s2, owner, j);
    }
}

proof fn lemma_perpetual_payouts_map(s: Seq<(Seq<char>, u32)>, owner: Seq<char>, amount: int)
    ensures
        entries_map(perpetual_payouts(s, owner, amount)) == Map::new(
            |k: Seq<char>| entries_map(s).dom().contains(k) && k != owner,
            |k: Seq<char>| portion(entries_map(s)[k] as int, amount),
        ),
    decreases s.len(),
{
    if s.len() > 0 {
        let d = s.drop_last();
        lemma_perpetual_payouts_map(d, owner, amount);
        if s.last().0 != owner {
            let prev = perpetual_payouts(d, owner, amount);
            assert(prev.push((s.last().0, portion(s.last().1 as int, amount))).drop_last() =~= prev);
        }
        assert(entries_map(perpetual_payouts(s, owner, amount)) =~= Map::new(
            |k: Seq<char>| entries_map(s).dom().contains(k) && k != owner,
            |k: Seq<char>| portion(entries_map(s)[k] as int, amount),
        ));
    }
}

/// The split depends on the schedule as a mapping only: two listings of the
/// same entries, in any order, give the same payout for every account.
pub proof fn lemma_payout_order_independent(
    s1: Seq<(Seq<char>, u32)>,
    s2: Seq<(Seq<char>, u32)>,
    owner: Seq<char>,
    amount: u128,
)
    requires
        keys_unique(s1),
        keys_unique(s2),
        entries_map(s1) == entries_map(s2),
    ensures
        entries_map(payout_entries(s1, owner, amount as int)) == entries_map(
            payout_entries(s2, owner, amount as int),
        ),
{
    let a = amount as int;
    lemma_perpetual_payouts_map(s1, owner, a);
    lemma_perpetual_payouts_map(s2, owner, a);
    lemma_perpetual_total_same_map(s1, s2, owner);
    assert(payout_entries(s1, owner, a).drop_last() =~= perpetual_payouts(s1, owner, a));
    assert(payout_entries(s2, owner, a).drop_last() =~= perpetual_payouts(s2, owner, a));
    assert(entries_map(perpetual_payouts(s1, owner, a)) =~= entries_map(
        perpetual_payouts(s2, owner, a),
    ));
}

/// Checks a candidate schedule: at most six entries, and shares that add up to
/// less than 100%.
pub fn assert_valid_royalty(royalty: &Royalty) -> (r: Result<(), NftError>)
    ensures
        r is Ok <==> schedule_valid(royalty@),
        royalty@.len() > MAX_ROYALTY_ENTRIES ==> r == Err::<(), NftError>(
            NftError::TooManyBeneficiaries,
        ),
        royalty@.len() <= MAX_ROYALTY_ENTRIES && share_total(royalty@) >= ROYALTY_DENOMINATOR
            ==> r == Err::<(), NftError>(NftError::RoyaltyExceedsTotal),
{
    let n = royalty.entries.len();
    if n > MAX_ROYALTY_ENTRIES {
        return Err(NftError::TooManyBeneficiaries);
    }
    let mut sum: u64 = 0;
    let mut i: usize = 0;
    while i < n
        invariant
            n == royalty@.len(),
            n <= MAX_ROYALTY_ENTRIES,
            i <= n,
            sum == share_total(royalty@.subrange(0, i as int)),
            sum <= i * 0xffff_ffff,
        decreases n - i,
    {
        let share = royalty.entries[i].1;
        proof {
            assert(royalty@.subrange(0, i + 1).drop_last() =~= royalty@.subrange(0, i as int));
        }
        sum = sum + share as u64;
        i = i + 1;
    }
    proof {
        assert(royalty@.subrange(0, n as int) =~= royalty@);
    }
    if sum >= ROYALTY_DENOMINATOR as u64 {
        return Err(NftError::RoyaltyExceedsTotal);
    }
    Ok(())
}

/// Converts a share in basis points and a sale amount into the amount owed,
/// rounded down; exact for every `u128` amount.
pub(crate) fn royalty_to_payout(royalty_percentage: u32, amount_to_pay: u128) -> (r: u128)
    requires
        royalty_percentage <= ROYALTY_DENOMINATOR,
    ensures
        r == portion(royalty_percentage as int, amount_to_pay as int),
{
    let whole: u128 = amount_to_pay / 10000;
    let rest: u128 = amount_to_pay % 10000;
    let p: u128 = royalty_percentage as u128;
    proof {
        let a = amount_to_pay as int;
        let w = whole as int;
        let t = rest as int;
        let pi = p as int;
        lemma_fundamental_div_mod(a, 10000);
        assert(pi * w <= a) by (nonlinear_arith)
            requires
                a == 10000 * w + t,
                0 <= pi <= 10000,
                0 <= w,
                0 <= t,
        ;
        assert(pi * t <= 10000 * 10000) by (nonlinear_arith)
            requires
                0 <= pi <= 10000,
                0 <= t < 10000,
        ;
        lemma_fundamental_div_mod(pi * t, 10000);
        assert(pi * a == (pi * w + (pi * t) / 10000) * 10000 + (pi * t) % 10000) by (nonlinear_arith)
            requires
                a == 10000 * w + t,
                pi * t == 10000 * ((pi * t) / 10000) + (pi * t) % 10000,
        ;
        lemma_fundamental_div_mod_converse_div(
            pi * a,
            10000,
            pi * w + (pi * t) / 10000,
            (pi * t) % 10000,
        );
        assert((pi * t) / 10000 <= t) by (nonlinear_arith)
            requires
                0 <= pi <= 10000,
                0 <= t,
                pi * t == 10000 * ((pi * t) / 10000) + (pi * t) % 10000,
                0 <= (pi * t) % 10000,
        ;
        assert(pi * w + (pi * t) / 10000 <= a) by (nonlinear_arith)
            requires
                pi * a == (pi * w + (pi * t) / 10000) * 10000 + (pi * t) % 10000,
                0 <= (pi * t) % 10000,
                0 <= pi <= 10000,
                0 <= a,
        ;
    }
    p * whole + p * rest / 10000
}

/// Splits a sale amount over a schedule: each beneficiary other than the owner
/// gets its share of `balance`, rounded down, in schedule order; the owner gets
/// what is left of 100% after those shares, rounded down, last.
pub fn compute_payout(royalty: &Royalty, owner_id: &AccountId, balance: u128, max_len_payout: u32) -> (r: Result<Payout, NftError>)
    requires
        schedule_valid(royalty@),
    ensures
        royalty@.len() > max_len_payout ==> r == Err::<Payout, NftError>(
            NftError::TooManyRecipientsForCaller,
        ),
        royalty@.len() <= max_len_payout ==> r is Ok && r->Ok_0@ == payout_entries(
            royalty@,
            owner_id@,
            balance as int,
        ),
{
    let n = royalty.entries.len();
    if n as u64 > max_len_payout as u64 {
        return Err(NftError::TooManyRecipientsForCaller);
    }
    let mut payout: Vec<(AccountId, u128)> = Vec::new();
    let mut total_perpetual: u32 = 0;
    let mut i: usize = 0;
    while i < n
        invariant
            n == royalty@.len(),
            schedule_valid(royalty@),
            i <= n,
            total_perpetual == perpetual_total(royalty@.subrange(0, i as int), owner_id@),
            (Payout { payout })@ == perpetual_payouts(
                royalty@.subrange(0, i as int),
                owner_id@,
                balance as int,
            ),
        decreases n - i,
    {
        let ghost pre = royalty@.subrange(0, i as int);
        let ghost next = royalty@.subrange(0, i + 1);
        proof {
            assert(next.drop_last() =~= pre);
            lemma_share_total_prefix(royalty@, i + 1);
            lemma_perpetual_le_total(next, owner_id@);
            lemma_perpetual_le_total(pre, owner_id@);
        }
        let key = &royalty.entries[i].0;
        let share = royalty.entries[i].1;
        if *key != *owner_id {
            let owed = royalty_to_payout(share, balance);
            let ghost old_payout = Payout { payout };
            payout.push((key.clone(), owed));
            proof {
                assert((Payout { payout })@ =~= old_payout@.push((key@, owed as int)));
            }
            total_perpetual = total_perpetual + share;
        }
        i = i + 1;
    }
    proof {
        assert(royalty@.subrange(0, n as int) =~= royalty@);
        lemma_perpetual_le_total(royalty@, owner_id@);
    }
    let owed = royalty_to_payout(ROYALTY_DENOMINATOR - total_perpetual, balance);
    let ghost old_payout = Payout { payout };
    payout.push((owner_id.clone(), owed));
    let result = Payout { payout };
    proof {
        assert(result@ =~= old_payout@.push((owner_id@, owed as int)));
    }
    Ok(result)
}

/// Royalties on sales: viewing and replacing the schedule, and the payout of a sale.
pub trait NonFungibleTokenRoyalty: ExtensionsView {
    /// The payout of a sale of `balance` by `owner_id`, the token's owner:
    /// a view that changes nothing.
    fn nft_payout(&self, owner_id: &AccountId, balance: u128, max_len_payout: u32) -> (r: Result<
        Payout,
        NftError,
    >)
        requires
            self.wf_view(),
        ensures
            self.royalty_view().len() > max_len_payout ==> r == Err::<Payout, NftError>(
                NftError::TooManyRecipientsForCaller,
            ),
            self.royalty_view().len() <= max_len_payout ==> r is Ok && r->Ok_0@ == payout_entries(
                self.royalty_view(),
                owner_id@,
                balance as int,
            ),
    ;

    /// The payout of a sale of `balance` once the token has been transferred
    /// away from `previous_owner_id`, on the schedule in effect now.
    fn nft_transfer_payout(
        &self,
        attached_deposit: u128,
        previous_owner_id: &AccountId,
        balance: u128,
        max_len_payout: u32,
    ) -> (r: Result<Payout, NftError>)
        requires
            self.wf_view(),
        ensures
            attached_deposit != ONE_YOCTO ==> r == Err::<Payout, NftError>(
                NftError::PaymentMarkerRequired,
            ),
            attached_deposit == ONE_YOCTO && self.royalty_view().len() > max_len_payout ==> r
                == Err::<Payout, NftError>(NftError::TooManyRecipientsForCaller),
            attached_deposit == ONE_YOCTO && self.royalty_view().len() <= max_len_payout ==> r is Ok
                && r->Ok_0@ == payout_entries(
                self.royalty_view(),
                previous_owner_id@,
                balance as int,
            ),
    ;

    /// The stored schedule.
    fn nft_royalty(&self) -> (r: JsonRoyalty)
        ensures
            r.royalty@ == self.royalty_view(),
    ;

    /// Replaces the schedule, wholesale, and returns the event that records the
    /// change. Subject to the lock; nothing changes when the call is refused.
    fn set_nft_royalty(&mut self, caller: &AccountId, attached_deposit: u128, royalty: Royalty) -> (r:
        Result<SetRoyalty, NftError>)
        requires
            old(self).wf_view(),
            keys_unique(royalty@),
        ensures
            final(self).wf_view(),
            final(self).owner_view() == old(self).owner_view(),
            final(self).locked_view() == old(self).locked_view(),
            mutation_check(old(self).owner_view(), old(self).locked_view(), caller@, attached_deposit)
                is Err ==> r is Err && r->Err_0 == mutation_check(
                old(self).owner_view(),
                old(self).locked_view(),
                caller@,
                attached_deposit,
            )->Err_0,
            mutation_check(old(self).owner_view(), old(self).locked_view(), caller@, attached_deposit)
                is Ok ==> (r is Ok <==> schedule_valid(royalty@)),
            mutation_check(old(self).owner_view(), old(self).locked_view(), caller@, attached_deposit)
                is Ok && !schedule_valid(royalty@) ==> r is Err && (royalty@.len()
                > MAX_ROYALTY_ENTRIES ==> r->Err_0 == NftError::TooManyBeneficiaries) && (royalty@.len()
                <= MAX_ROYALTY_ENTRIES ==> r->Err_0 == NftError::RoyaltyExceedsTotal),
            r is Err ==> final(self).royalty_view() == old(self).royalty_view(),
            r is Ok ==> final(self).royalty_view() == royalty@ && r->Ok_0.previous_royalty@ == old(self).royalty_view() && r->Ok_0.new_royalty@ == royalty@,
    ;
}

} // verus!
