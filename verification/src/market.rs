//! The top-level persistent store: a mapping from unique id to token,
//! with an explicit two-phase lifecycle (uninitialized, then initialized)
//! that rejects every operation before initialization.

use vstd::prelude::*;
use crate::ids::{gen_unique_id, id_spec, StoreId, TokenId, UniqueId};
use crate::royalty::{distinct_keys, AccountId, Percentage, Royalty};
use crate::token::{
    new_token_view, royalty_option_view, royalty_view_of, Balance, Offer, Token, TokenView,
};

verus! {

/// The two fatal error kinds: an operation invoked before explicit
/// initialization, and a lookup of an id that holds nothing.
#[derive(Clone, Copy, PartialEq, Eq, Structural, Debug)]
pub enum MarketError {
    Uninitialized,
    NotFound,
}

/// Mathematical model of a [`Marketplace`].
pub struct MarketView {
    pub initialized: bool,
    pub tokens: Map<Seq<char>, TokenView>,
    pub offers: Seq<Offer>,
}

/// The mapping described by a sequence of (unique id, token) entries,
/// later entries overriding earlier ones on the same id.
pub open spec fn tokens_map_of(entries: Seq<(UniqueId, Token)>) -> Map<Seq<char>, TokenView>
    decreases entries.len(),
{
    if entries.len() == 0 {
        Map::empty()
    } else {
        tokens_map_of(entries.drop_last()).insert(entries.last().0@, entries.last().1@)
    }
}

/// The top-level persistent store: unique id to token, plus a standalone
/// offer list, behind an explicit initialization flag.
pub struct Marketplace {
    initialized: bool,
    tokens: Vec<(UniqueId, Token)>,
    my_vector: Vec<Offer>,
}

impl View for Marketplace {
    type V = MarketView;

    closed spec fn view(&self) -> MarketView {
        MarketView {
            initialized: self.initialized,
            tokens: tokens_map_of(self.tokens@),
            offers: self.my_vector@,
        }
    }
}

proof fn lemma_tokens_map_contains(s: Seq<(UniqueId, Token)>, k: Seq<char>)
    ensures
        tokens_map_of(s).contains_key(k) <==> exists|i: int|
            0 <= i < s.len() && (#[trigger] s[i]).0@ == k,
    decreases s.len(),
{
    if s.len() > 0 {
        let prefix = s.drop_last();
        lemma_tokens_map_contains(prefix, k);
        if s.last().0@ == k {
            assert(s[s.len() - 1].0@ == k);
        } else {
            if tokens_map_of(s).contains_key(k) {
                let i = choose|i: int| 0 <= i < prefix.len() && (#[trigger] prefix[i]).0@ == k;
                assert(s[i].0@ == k);
            }
            if exists|i: int| 0 <= i < s.len() && (#[trigger] s[i]).0@ == k {
                let i = choose|i: int| 0 <= i < s.len() && (#[trigger] s[i]).0@ == k;
                assert(i < s.len() - 1);
                assert(prefix[i].0@ == k);
            }
        }
    }
}

proof fn lemma_tokens_map_lookup(s: Seq<(UniqueId, Token)>, i: int)
    requires
        distinct_keys(s),
        0 <= i < s.len(),
    ensures
        tokens_map_of(s).contains_key(s[i].0@),
        tokens_map_of(s)[s[i].0@] == s[i].1@,
    decreases s.len(),
{
    let prefix = s.drop_last();
    if i == s.len() - 1 {
        assert(tokens_map_of(s) == tokens_map_of(prefix).insert(s.last().0@, s.last().1@));
    } else {
        assert(distinct_keys(prefix)) by {
            assert(forall|j: int| 0 <= j < prefix.len() ==> prefix[j] == s[j]);
        }
        assert(prefix[i] == s[i]);
        lemma_tokens_map_lookup(prefix, i);
        assert(s[i].0@ != s.last().0@);
    }
}

proof fn lemma_tokens_map_remove(s: Seq<(UniqueId, Token)>, i: int)
    requires
        distinct_keys(s),
        0 <= i < s.len(),
    ensures
        distinct_keys(s.remove(i)),
        tokens_map_of(s.remove(i)) == tokens_map_of(s).remove(s[i].0@),
    decreases s.len(),
{
    let k = s[i].0@;
    let prefix = s.drop_last();
    assert(distinct_keys(s.remove(i))) by {
        assert(forall|j: int|
            0 <= j < s.remove(i).len() ==> s.remove(i)[j] == if j < i {
                s[j]
            } else {
                s[j + 1]
            });
    }
    assert(distinct_keys(prefix)) by {
        assert(forall|j: int| 0 <= j < prefix.len() ==> prefix[j] == s[j]);
    }
    if i == s.len() - 1 {
        assert(s.remove(i) =~= prefix);
        lemma_tokens_map_contains(prefix, k);
        assert(!tokens_map_of(prefix).contains_key(k));
        assert(tokens_map_of(s) == tokens_map_of(prefix).insert(k, s.last().1@));
        assert(tokens_map_of(s).remove(k) =~= tokens_map_of(prefix));
    } else {
        let last = s.last();
        assert(s.remove(i).drop_last() =~= prefix.remove(i));
        assert(s.remove(i).last() == last);
        assert(s.remove(i).len() > 0);
        assert(tokens_map_of(s.remove(i)) == tokens_map_of(prefix.remove(i)).insert(
            last.0@,
            last.1@,
        ));
        assert(prefix[i] == s[i]);
        lemma_tokens_map_remove(prefix, i);
        assert(k != last.0@);
        assert(tokens_map_of(prefix).remove(k).insert(last.0@, last.1@) =~= tokens_map_of(
            prefix,
        ).insert(last.0@, last.1@).remove(k));
        assert(tokens_map_of(s) == tokens_map_of(prefix).insert(last.0@, last.1@));
    }
}

/// Re-creating a token under an id it already holds silently replaces the
/// prior record: the map afterwards is the same as if only the second
/// creation had happened, and the first record (with its offer history)
/// is unrecoverable.
pub proof fn lemma_recreate_replaces(
    tokens: Map<Seq<char>, TokenView>,
    k: Seq<char>,
    first: TokenView,
    second: TokenView,
)
    ensures
        tokens.insert(k, first).insert(k, second) == tokens.insert(k, second),
{
    assert(tokens.insert(k, first).insert(k, second) =~= tokens.insert(k, second));
}

impl Marketplace {
    /// Every entry is keyed by the id the identity scheme derives from
    /// the (store, token-number) pair the token was created with, and no
    /// id occurs twice.
    pub closed spec fn wf(self) -> bool {
        &&& distinct_keys(self.tokens@)
        &&& forall|i: int|
            0 <= i < self.tokens@.len() ==> (#[trigger] self.tokens@[i]).0@ == id_spec(
                self.tokens@[i].1@.store_id,
                self.tokens@[i].1@.token_id as nat,
            )
    }

    /// Explicit initialization: an empty, initialized store.
    pub fn new() -> (m: Marketplace)
        ensures
            m.wf(),
            m@.initialized,
            m@.tokens == Map::<Seq<char>, TokenView>::empty(),
            m@.offers == Seq::<Offer>::empty(),
    {
        Marketplace { initialized: true, tokens: Vec::new(), my_vector: Vec::new() }
    }

    fn find_index(&self, unique_id: &UniqueId) -> (r: Option<usize>)
        ensures
            match r {
                Some(i) => i < self.tokens@.len() && self.tokens@[i as int].0@ == unique_id@,
                None => forall|j: int|
                    0 <= j < self.tokens@.len() ==> (#[trigger] self.tokens@[j]).0@ != unique_id@,
            },
    {
        let n = self.tokens.len();
        let mut i: usize = 0;
        while i < n
            invariant
                n == self.tokens@.len(),
                i <= n,
                forall|j: int| 0 <= j < i ==> (#[trigger] self.tokens@[j]).0@ != unique_id@,
            decreases n - i,
        {
            if self.tokens[i].0 == *unique_id {
                return Some(i);
            }
            i = i + 1;
        }
        None
    }

    /// Creates (or silently re-creates) the token derived from the calling
    /// store's identity and the token number, with an empty offer history.
    /// The store identity is an explicit input so that a caller can only
    /// mint into its own namespace.
    pub fn new_token(
        &mut self,
        store_id: StoreId,
        owner_id: AccountId,
        token_id: TokenId,
        royalties: Option<(Percentage, Vec<(AccountId, Percentage)>)>,
    ) -> (r: Result<(), MarketError>)
        requires
            old(self).wf(),
        ensures
            final(self).wf(),
            !old(self)@.initialized ==> r == Err::<(), MarketError>(MarketError::Uninitialized)
                && final(self)@ == old(self)@,
            old(self)@.initialized ==> r == Ok::<(), MarketError>(()) && final(self)@.initialized
                && final(self)@.offers == old(self)@.offers && final(self)@.tokens == old(
                self,
            )@.tokens.insert(
                id_spec(store_id@, token_id as nat),
                new_token_view(owner_id@, store_id@, token_id, royalty_view_of(royalties)),
            ),
    {
        if !self.initialized {
            return Err(MarketError::Uninitialized);
        }
        let uid = gen_unique_id(store_id.clone(), token_id);
        let token = Token::new(owner_id, store_id, token_id, royalties);
        let ghost pre = self.tokens@;
        match self.find_index(&uid) {
            Some(i) => {
                proof {
                    lemma_tokens_map_remove(pre, i as int);
                }
                let _prior = self.tokens.remove(i);
                self.tokens.push((uid, token));
                proof {
                    let ghost k = pre[i as int].0@;
                    assert(self.tokens@.drop_last() =~= pre.remove(i as int));
                    assert(tokens_map_of(self.tokens@) == tokens_map_of(
                        pre.remove(i as int),
                    ).insert(k, token@));
                    assert(tokens_map_of(pre).remove(k).insert(k, token@) =~= tokens_map_of(
                        pre,
                    ).insert(k, token@));
                    assert(distinct_keys(self.tokens@)) by {
                        lemma_tokens_map_contains(pre.remove(i as int), k);
                        assert(forall|j: int|
                            0 <= j < pre.remove(i as int).len() ==> (#[trigger] self.tokens@[j])
                                == pre.remove(i as int)[j]);
                    }
                }
                Ok(())
            },
            None => {
                self.tokens.push((uid, token));
                proof {
                    assert(self.tokens@.drop_last() =~= pre);
                    assert(tokens_map_of(self.tokens@) == tokens_map_of(pre).insert(uid@, token@));
                    assert(forall|j: int|
                        0 <= j < pre.len() ==> (#[trigger] self.tokens@[j]) == pre[j]);
                }
                Ok(())
            },
        }
    }

    /// The token stored at a unique id. A missing id is a hard failure
    /// (`NotFound`); nothing is returned partially.
    pub fn get_token(&self, unique_id: &UniqueId) -> (r: Result<Token, MarketError>)
        requires
            self.wf(),
        ensures
            r is Ok <==> (self@.initialized && self@.tokens.contains_key(unique_id@)),
            (r matches Ok(t) ==> t@ == self@.tokens[unique_id@]),
            r == Err::<Token, MarketError>(MarketError::Uninitialized) <==> !self@.initialized,
            r == Err::<Token, MarketError>(MarketError::NotFound) <==> (self@.initialized
                && !self@.tokens.contains_key(unique_id@)),
    {
        if !self.initialized {
            return Err(MarketError::Uninitialized);
        }
        proof {
            lemma_tokens_map_contains(self.tokens@, unique_id@);
        }
        match self.find_index(unique_id) {
            Some(i) => {
                proof {
                    lemma_tokens_map_lookup(self.tokens@, i as int);
                }
                Ok(self.tokens[i].1.duplicate())
            },
            None => Err(MarketError::NotFound),
        }
    }

    /// The offer at a position of a token's history. A missing token is a
    /// hard failure, while an out-of-range index is a normal absence.
    pub fn get_offer_at_index(&self, unique_id: &UniqueId, index: u64) -> (r: Result<
        Option<Offer>,
        MarketError,
    >)
        requires
            self.wf(),
        ensures
            r is Ok <==> (self@.initialized && self@.tokens.contains_key(unique_id@)),
            (r matches Ok(o) ==> match o {
                Some(offer) => index < self@.tokens[unique_id@].offer_history.len() && offer
                    == self@.tokens[unique_id@].offer_history[index as int],
                None => index >= self@.tokens[unique_id@].offer_history.len(),
            }),
            r == Err::<Option<Offer>, MarketError>(MarketError::Uninitialized)
                <==> !self@.initialized,
            r == Err::<Option<Offer>, MarketError>(MarketError::NotFound) <==> (self@.initialized
                && !self@.tokens.contains_key(unique_id@)),
    {
        match self.get_token(unique_id) {
            Ok(t) => Ok(t.get_offer_at_index(index)),
            Err(e) => Err(e),
        }
    }

    /// The royalty policy of the token at a unique id, or absent when the
    /// token carries none; a missing token fails exactly as `get_token`.
    pub fn get_royalties(&self, unique_id: &UniqueId) -> (r: Result<Option<Royalty>, MarketError>)
        requires
            self.wf(),
        ensures
            r is Ok <==> (self@.initialized && self@.tokens.contains_key(unique_id@)),
            (r matches Ok(o) ==> royalty_option_view(o) == self@.tokens[unique_id@].royalties),
            r == Err::<Option<Royalty>, MarketError>(MarketError::Uninitialized)
                <==> !self@.initialized,
            r == Err::<Option<Royalty>, MarketError>(MarketError::NotFound) <==> (self@.initialized
                && !self@.tokens.contains_key(unique_id@)),
    {
        match self.get_token(unique_id) {
            Ok(t) => Ok(t.into_royalties()),
            Err(e) => Err(e),
        }
    }

    /// Appends a price event to the history of the token at a unique id;
    /// everything else in the store is kept as it was.
    pub fn record_offer(&mut self, unique_id: &UniqueId, price: Balance) -> (r: Result<
        (),
        MarketError,
    >)
        requires
            old(self).wf(),
        ensures
            final(self).wf(),
            r is Ok <==> (old(self)@.initialized && old(self)@.tokens.contains_key(unique_id@)),
            r is Ok ==> final(self)@.initialized && final(self)@.offers == old(self)@.offers
                && final(self)@.tokens == old(self)@.tokens.insert(
                unique_id@,
                with_offer(old(self)@.tokens[unique_id@], price),
            ),
            r is Err ==> final(self)@ == old(self)@,
            r == Err::<(), MarketError>(MarketError::Uninitialized) <==> !old(self)@.initialized,
            r == Err::<(), MarketError>(MarketError::NotFound) <==> (old(self)@.initialized && !old(
                self,
            )@.tokens.contains_key(unique_id@)),
    {
        if !self.initialized {
            return Err(MarketError::Uninitialized);
        }
        let ghost pre = self.tokens@;
        proof {
            lemma_tokens_map_contains(pre, unique_id@);
        }
        match self.find_index(unique_id) {
            Some(i) => {
                proof {
                    lemma_tokens_map_lookup(pre, i as int);
                    lemma_tokens_map_remove(pre, i as int);
                }
                let entry = self.tokens.remove(i);
                let key = entry.0;
                let mut tok = entry.1;
                tok.record_offer(price);
                self.tokens.push((key, tok));
                proof {
                    let ghost k = pre[i as int].0@;
                    assert(self.tokens@.drop_last() =~= pre.remove(i as int));
                    assert(tokens_map_of(self.tokens@) == tokens_map_of(
                        pre.remove(i as int),
                    ).insert(k, tok@));
                    assert(tokens_map_of(pre).remove(k).insert(k, tok@) =~= tokens_map_of(
                        pre,
                    ).insert(k, tok@));
                    assert(tok@ == with_offer(tokens_map_of(pre)[k], price));
                    assert(distinct_keys(self.tokens@)) by {
                        lemma_tokens_map_contains(pre.remove(i as int), k);
                        assert(forall|j: int|
                            0 <= j < pre.remove(i as int).len() ==> (#[trigger] self.tokens@[j])
                                == pre.remove(i as int)[j]);
                    }
                }
                Ok(())
            },
            None => Err(MarketError::NotFound),
        }
    }

    /// The offer at a position of the store's standalone offer list, or
    /// absent when the index is out of range.
    pub fn lookup_within_vector(&self, index: u64) -> (r: Result<Option<Offer>, MarketError>)
        ensures
            r is Ok <==> self@.initialized,
            (r matches Ok(o) ==> match o {
                Some(offer) => index < self@.offers.len() && offer == self@.offers[index as int],
                None => index >= self@.offers.len(),
            }),
            r == Err::<Option<Offer>, MarketError>(MarketError::Uninitialized)
                <==> !self@.initialized,
    {
        if !self.initialized {
            return Err(MarketError::Uninitialized);
        }
        if index < self.my_vector.len() as u64 {
            Ok(Some(self.my_vector[index as usize]))
        } else {
            Ok(None)
        }
    }
}

/// The model of a token after one more recorded offer.
pub open spec fn with_offer(t: TokenView, price: Balance) -> TokenView {
    TokenView {
        owner_id: t.owner_id,
        store_id: t.store_id,
        token_id: t.token_id,
        royalties: t.royalties,
        offer_history: t.offer_history.push(Offer { price }),
    }
}

impl Default for Marketplace {
    /// Default construction does not initialize the store: the value it
    /// yields rejects every operation with `Uninitialized` until
    /// [`Marketplace::new`] is used instead.
    fn default() -> (m: Marketplace)
        ensures
            m.wf(),
            !m@.initialized,
            m@.tokens == Map::<Seq<char>, TokenView>::empty(),
            m@.offers == Seq::<Offer>::empty(),
    {
        Marketplace { initialized: false, tokens: Vec::new(), my_vector: Vec::new() }
    }
}

} // verus!
