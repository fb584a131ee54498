//! Royalty policy: a percentage-of-sale split across zero or more
//! beneficiary accounts, immutable once created.

use vstd::prelude::*;

verus! {

/// Account identifier of a royalty beneficiary.
pub type AccountId = String;

/// Integer percentage share, conceptually in [0, 100]; an integer
/// representation avoids the rounding drift a floating value would
/// introduce when summing beneficiary shares.
pub type Percentage = u32;

/// No two pairs bind the same key.
pub open spec fn distinct_keys<V>(pairs: Seq<(String, V)>) -> bool {
    forall|i: int, j: int|
        0 <= i < j < pairs.len() ==> pairs[i].0@ != pairs[j].0@
}

/// The mapping described by a sequence of (beneficiary, share) pairs,
/// later pairs overriding earlier ones on the same key.
pub open spec fn split_map_of(pairs: Seq<(AccountId, Percentage)>) -> Map<Seq<char>, Percentage>
    decreases pairs.len(),
{
    if pairs.len() == 0 {
        Map::empty()
    } else {
        split_map_of(pairs.drop_last()).insert(pairs.last().0@, pairs.last().1)
    }
}

/// Mathematical model of a [`Royalty`].
pub struct RoyaltyView {
    pub percentage: Percentage,
    pub split_between: Map<Seq<char>, Percentage>,
}

/// A percentage-of-sale obligation split across named beneficiaries.
pub struct Royalty {
    percentage: Percentage,
    split_between: Vec<(AccountId, Percentage)>,
}

impl View for Royalty {
    type V = RoyaltyView;

    closed spec fn view(&self) -> RoyaltyView {
        RoyaltyView {
            percentage: self.percentage,
            split_between: split_map_of(self.split_between@),
        }
    }
}

impl Royalty {
    /// Creates the policy atomically from a caller-supplied percentage and
    /// list of beneficiary shares.
    pub fn new(percentage: Percentage, split_between: Vec<(AccountId, Percentage)>) -> (r: Royalty)
        ensures
            r@.percentage == percentage,
            r@.split_between == split_map_of(split_between@),
    {
        Royalty { percentage, split_between }
    }

    /// The fraction of the sale price owed to the beneficiaries as a whole.
    pub fn percentage(&self) -> (p: Percentage)
        ensures
            p == self@.percentage,
    {
        self.percentage
    }

    /// The share owed to one beneficiary, or absent when the account is
    /// not among the beneficiaries.
    pub fn share_of(&self, account: &AccountId) -> (r: Option<Percentage>)
        ensures
            match r {
                Some(p) => self@.split_between.contains_key(account@)
                    && p == self@.split_between[account@],
                None => !self@.split_between.contains_key(account@),
            },
    {
        let mut r: Option<Percentage> = None;
        let n = self.split_between.len();
        let mut i: usize = 0;
        while i < n
            invariant
                n == self.split_between@.len(),
                i <= n,
                match r {
                    Some(p) => split_map_of(self.split_between@.take(i as int)).contains_key(
                        account@,
                    ) && p == split_map_of(self.split_between@.take(i as int))[account@],
                    None => !split_map_of(self.split_between@.take(i as int)).contains_key(
                        account@,
                    ),
                },
            decreases n - i,
        {
            let pair = &self.split_between[i];
            proof {
                assert(self.split_between@.take(i + 1).drop_last() =~= self.split_between@.take(
                    i as int,
                ));
                assert(self.split_between@.take(i + 1).last() == self.split_between@[i as int]);
            }
            if pair.0 == *account {
                r = Some(pair.1);
            }
            i = i + 1;
        }
        proof {
            assert(self.split_between@.take(n as int) =~= self.split_between@);
        }
        r
    }

    /// Materializes the split as plain (beneficiary, share) pairs, for
    /// handing the policy across the system boundary.
    pub fn splits(&self) -> (r: &Vec<(AccountId, Percentage)>)
        ensures
            split_map_of(r@) == self@.split_between,
    {
        &self.split_between
    }

    /// A field-for-field copy of the policy.
    pub fn duplicate(&self) -> (r: Royalty)
        ensures
            r@ == self@,
    {
        let mut pairs: Vec<(AccountId, Percentage)> = Vec::new();
        let n = self.split_between.len();
        let mut i: usize = 0;
        while i < n
            invariant
                n == self.split_between@.len(),
                i <= n,
                pairs@ =~= self.split_between@.take(i as int),
            decreases n - i,
        {
            let pair = &self.split_between[i];
            pairs.push((pair.0.clone(), pair.1));
            i = i + 1;
        }
        proof {
            assert(pairs@ =~= self.split_between@);
        }
        Royalty { percentage: self.percentage, split_between: pairs }
    }
}

/// Reading a split back yields exactly the pairs it was built from: when
/// the keys are distinct, every supplied pair is found in the map, and
/// every key of the map comes from some supplied pair.
pub proof fn lemma_split_map_round_trip(pairs: Seq<(AccountId, Percentage)>)
    requires
        distinct_keys(pairs),
    ensures
        forall|i: int|
            0 <= i < pairs.len() ==> #[trigger] split_map_of(pairs).contains_key(pairs[i].0@)
                && split_map_of(pairs)[pairs[i].0@] == pairs[i].1,
        forall|k: Seq<char>|
            #[trigger] split_map_of(pairs).contains_key(k) ==> exists|i: int|
                0 <= i < pairs.len() && pairs[i].0@ == k,
    decreases pairs.len(),
{
    if pairs.len() > 0 {
        let prefix = pairs.drop_last();
        let last = pairs.last();
        assert(distinct_keys(prefix)) by {
            assert(forall|i: int| 0 <= i < prefix.len() ==> prefix[i] == pairs[i]);
        }
        lemma_split_map_round_trip(prefix);
        assert(split_map_of(pairs) == split_map_of(prefix).insert(last.0@, last.1));
        assert forall|i: int|
            0 <= i < pairs.len() implies #[trigger] split_map_of(pairs).contains_key(pairs[i].0@)
            && split_map_of(pairs)[pairs[i].0@] == pairs[i].1 by {
            if i < pairs.len() - 1 {
                assert(pairs[i] == prefix[i]);
                assert(split_map_of(prefix).contains_key(prefix[i].0@));
                assert(pairs[i].0@ != last.0@);
            } else {
                assert(pairs[i] == last);
            }
        }
        assert forall|k: Seq<char>|
            #[trigger] split_map_of(pairs).contains_key(k) implies exists|i: int|
            0 <= i < pairs.len() && pairs[i].0@ == k by {
            if k == last.0@ {
                assert(pairs[pairs.len() - 1].0@ == k);
            } else {
                assert(split_map_of(prefix).contains_key(k));
                let i = choose|i: int| 0 <= i < prefix.len() && prefix[i].0@ == k;
                assert(pairs[i].0@ == k);
            }
        }
    }
}

/// Some pair of `s` binds `k` to `v`.
pub open spec fn has_pair(s: Seq<(AccountId, Percentage)>, k: Seq<char>, v: Percentage) -> bool {
    exists|i: int| 0 <= i < s.len() && (#[trigger] s[i]).0@ == k && s[i].1 == v
}

/// The split map does not depend on the order in which the beneficiary
/// pairs were supplied: two sequences with distinct keys holding the same
/// pairs produce the same map.
pub proof fn lemma_split_map_order_independent(
    a: Seq<(AccountId, Percentage)>,
    b: Seq<(AccountId, Percentage)>,
)
    requires
        distinct_keys(a),
        distinct_keys(b),
        forall|i: int| 0 <= i < a.len() ==> has_pair(b, (#[trigger] a[i]).0@, a[i].1),
        forall|j: int| 0 <= j < b.len() ==> has_pair(a, (#[trigger] b[j]).0@, b[j].1),
    ensures
        split_map_of(a) == split_map_of(b),
{
    lemma_split_map_round_trip(a);
    lemma_split_map_round_trip(b);
    assert forall|k: Seq<char>|
        split_map_of(a).contains_key(k) implies split_map_of(b).contains_key(k)
        && split_map_of(a)[k] == split_map_of(b)[k] by {
        let i = choose|i: int| 0 <= i < a.len() && (#[trigger] a[i]).0@ == k;
        assert(has_pair(b, a[i].0@, a[i].1));
        let j = choose|j: int| 0 <= j < b.len() && (#[trigger] b[j]).0@ == a[i].0@ && b[j].1
            == a[i].1;
        assert(split_map_of(b).contains_key(b[j].0@));
    }
    assert forall|k: Seq<char>|
        split_map_of(b).contains_key(k) implies split_map_of(a).contains_key(k) by {
        let j = choose|j: int| 0 <= j < b.len() && (#[trigger] b[j]).0@ == k;
        assert(has_pair(a, b[j].0@, b[j].1));
        let i = choose|i: int| 0 <= i < a.len() && (#[trigger] a[i]).0@ == b[j].0@ && a[i].1
            == b[j].1;
        assert(split_map_of(a).contains_key(a[i].0@));
    }
    assert(split_map_of(a) =~= split_map_of(b));
}

} // verus!
