//! Tokens and their offer history: the durable record for one
//! marketplace item.

use vstd::prelude::*;
use crate::ids::{StoreId, TokenId};
use crate::royalty::{AccountId, Percentage, Royalty, RoyaltyView, split_map_of};

verus! {

/// Non-negative price amount; large enough that recorded prices are
/// never silently truncated.
pub type Balance = u128;

/// An immutable recorded price event tied to a token.
#[derive(Clone, Copy, PartialEq, Eq, Structural, Debug)]
pub struct Offer {
    pub price: Balance,
}

impl Offer {
    /// Records a price as an immutable value object.
    pub fn new(price: Balance) -> (o: Offer)
        ensures
            o.price == price,
    {
        Offer { price }
    }
}

/// Mathematical model of a [`Token`].
pub struct TokenView {
    pub owner_id: Seq<char>,
    pub store_id: Seq<char>,
    pub token_id: TokenId,
    pub royalties: Option<RoyaltyView>,
    pub offer_history: Seq<Offer>,
}

/// The model of the royalty argument handed to [`Token::new`]: a
/// caller-supplied (percentage, beneficiary shares) pair, or absent.
pub open spec fn royalty_view_of(
    royalties: Option<(Percentage, Vec<(AccountId, Percentage)>)>,
) -> Option<RoyaltyView> {
    match royalties {
        None => None,
        Some(pm) => Some(
            RoyaltyView { percentage: pm.0, split_between: split_map_of(pm.1@) },
        ),
    }
}

/// The model of an optional royalty policy.
pub open spec fn royalty_option_view(o: Option<Royalty>) -> Option<RoyaltyView> {
    match o {
        None => None,
        Some(r) => Some(r@),
    }
}

/// The model of a freshly created token: the given identity, an optional
/// royalty policy, and an empty offer history.
pub open spec fn new_token_view(
    owner_id: Seq<char>,
    store_id: Seq<char>,
    token_id: TokenId,
    royalties: Option<RoyaltyView>,
) -> TokenView {
    TokenView {
        owner_id,
        store_id,
        token_id,
        royalties,
        offer_history: Seq::empty(),
    }
}

/// The durable record for one marketplace item: owner, origin store,
/// numeric id, optional royalty policy, and an append-only offer history.
pub struct Token {
    pub owner_id: AccountId,
    pub store_id: StoreId,
    pub token_id: TokenId,
    pub royalties: Option<Royalty>,
    offer_history: Vec<Offer>,
}

impl View for Token {
    type V = TokenView;

    closed spec fn view(&self) -> TokenView {
        TokenView {
            owner_id: self.owner_id@,
            store_id: self.store_id@,
            token_id: self.token_id,
            royalties: royalty_option_view(self.royalties),
            offer_history: self.offer_history@,
        }
    }
}

impl Token {
    /// Creates the record for one item with an empty offer history; the
    /// royalty policy, when supplied, is constructed atomically from the
    /// caller's (percentage, beneficiary shares) pair.
    pub fn new(
        owner_id: AccountId,
        store_id: StoreId,
        token_id: TokenId,
        royalties: Option<(Percentage, Vec<(AccountId, Percentage)>)>,
    ) -> (t: Token)
        ensures
            t@ == new_token_view(owner_id@, store_id@, token_id, royalty_view_of(royalties)),
    {
        let ghost royalties_view = royalty_view_of(royalties);
        let royalties = match royalties {
            None => None,
            Some(pm) => Some(Royalty::new(pm.0, pm.1)),
        };
        let t = Token { owner_id, store_id, token_id, royalties, offer_history: Vec::new() };
        proof {
            assert(t@.offer_history =~= Seq::<Offer>::empty());
            assert(t@ == new_token_view(t@.owner_id, t@.store_id, token_id, royalties_view));
        }
        t
    }

    /// The offer at a position of the history, or absent when the index
    /// is out of range (a normal empty result, not an error).
    pub fn get_offer_at_index(&self, i: u64) -> (r: Option<Offer>)
        ensures
            match r {
                Some(o) => i < self@.offer_history.len() && o == self@.offer_history[i as int],
                None => i >= self@.offer_history.len(),
            },
    {
        if i < self.offer_history.len() as u64 {
            Some(self.offer_history[i as usize])
        } else {
            None
        }
    }

    /// Appends a price event to the history; every other field is kept.
    pub fn record_offer(&mut self, price: Balance)
        ensures
            final(self)@.owner_id == old(self)@.owner_id,
            final(self)@.store_id == old(self)@.store_id,
            final(self)@.token_id == old(self)@.token_id,
            final(self)@.royalties == old(self)@.royalties,
            final(self)@.offer_history == old(self)@.offer_history.push((Offer { price })),
    {
        self.offer_history.push(Offer::new(price));
    }

    /// Materializes the whole offer history in order, for handing the
    /// record across the system boundary.
    pub fn offers(&self) -> (r: &Vec<Offer>)
        ensures
            r@ == self@.offer_history,
    {
        &self.offer_history
    }

    /// Hands the royalty policy out across the boundary, consuming the
    /// materialized record.
    pub fn into_royalties(self) -> (r: Option<Royalty>)
        ensures
            royalty_option_view(r) == self@.royalties,
    {
        self.royalties
    }

    /// A field-for-field copy of the record.
    pub fn duplicate(&self) -> (t: Token)
        ensures
            t@ == self@,
    {
        let royalties = match &self.royalties {
            None => None,
            Some(r) => Some(r.duplicate()),
        };
        let mut offers: Vec<Offer> = Vec::new();
        let n = self.offer_history.len();
        let mut i: usize = 0;
        while i < n
            invariant
                n == self.offer_history@.len(),
                i <= n,
                offers@ =~= self.offer_history@.take(i as int),
            decreases n - i,
        {
            offers.push(self.offer_history[i]);
            i = i + 1;
        }
        proof {
            assert(offers@ =~= self.offer_history@);
        }
        Token {
            owner_id: self.owner_id.clone(),
            store_id: self.store_id.clone(),
            token_id: self.token_id,
            royalties,
            offer_history: offers,
        }
    }
}

} // verus!
