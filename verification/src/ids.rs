//! Deterministic construction of a globally unique token key from a
//! (store, token-number) pair: `store ++ "." ++ decimal(token_id)`.

use vstd::prelude::*;
use vstd::string::StringExecFns;

verus! {

/// Account identifier of the store that registered a token.
pub type StoreId = String;

/// Numeric token identifier, unique only within one store.
pub type TokenId = u32;

/// Globally unique token key derived from a (store, token-number) pair.
pub type UniqueId = String;

/// The decimal digit character for `d` (meaningful for `d < 10`).
pub open spec fn digit_char(d: nat) -> char {
    if d == 0 {
        '0'
    } else if d == 1 {
        '1'
    } else if d == 2 {
        '2'
    } else if d == 3 {
        '3'
    } else if d == 4 {
        '4'
    } else if d == 5 {
        '5'
    } else if d == 6 {
        '6'
    } else if d == 7 {
        '7'
    } else if d == 8 {
        '8'
    } else {
        '9'
    }
}

/// The usual decimal rendering of `n`, most significant digit first,
/// with no leading zeros (and `0` rendered as "0").
pub open spec fn decimal_of(n: nat) -> Seq<char>
    decreases n,
{
    if n < 10 {
        seq![digit_char(n)]
    } else {
        decimal_of(n / 10).push(digit_char(n % 10))
    }
}

/// The unique id derived from a store identifier and a token number.
pub open spec fn id_spec(store: Seq<char>, token_id: nat) -> Seq<char> {
    store.push('.') + decimal_of(token_id)
}

fn digit_str(d: u32) -> (r: &'static str)
    requires
        d < 10,
    ensures
        r@ =~= seq![digit_char(d as nat)],
{
    proof {
        reveal_strlit("0");
        reveal_strlit("1");
        reveal_strlit("2");
        reveal_strlit("3");
        reveal_strlit("4");
        reveal_strlit("5");
        reveal_strlit("6");
        reveal_strlit("7");
        reveal_strlit("8");
        reveal_strlit("9");
    }
    match d {
        0 => "0",
        1 => "1",
        2 => "2",
        3 => "3",
        4 => "4",
        5 => "5",
        6 => "6",
        7 => "7",
        8 => "8",
        _ => "9",
    }
}

fn push_decimal(s: &mut String, n: u32)
    ensures
        final(s)@ == old(s)@ + decimal_of(n as nat),
    decreases n,
{
    if n >= 10 {
        push_decimal(s, n / 10);
    }
    let d: u32 = n % 10;
    s.append(digit_str(d));
    proof {
        if n >= 10 {
            assert(old(s)@ + decimal_of((n / 10) as nat) + seq![digit_char((n % 10) as nat)]
                =~= old(s)@ + decimal_of(n as nat));
        } else {
            assert(old(s)@ + seq![digit_char(n as nat)] =~= old(s)@ + decimal_of(n as nat));
        }
    }
}

/// Derives the unique lookup key for a token: the store identifier,
/// a `.` delimiter, and the decimal rendering of the token number.
///
/// The result is fully determined by the two arguments, so repeated
/// calls on the same pair always reproduce the same key.
pub fn gen_unique_id(store_id: StoreId, token_id: TokenId) -> (r: UniqueId)
    ensures
        r@ == id_spec(store_id@, token_id as nat),
{
    let ghost store_view: Seq<char> = store_id@;
    let mut r = store_id;
    proof {
        reveal_strlit(".");
    }
    r.append(".");
    push_decimal(&mut r, token_id);
    proof {
        assert(store_view + "."@ + decimal_of(token_id as nat)
            =~= id_spec(store_view, token_id as nat));
    }
    r
}

/// Deriving a key is deterministic: any two keys derived from the same
/// (store, token-number) pair are equal, however often the derivation is
/// repeated.
pub proof fn lemma_unique_id_deterministic(a: UniqueId, b: UniqueId, store: Seq<char>, token_id: nat)
    requires
        a@ == id_spec(store, token_id),
        b@ == id_spec(store, token_id),
    ensures
        a@ == b@,
{
}

proof fn lemma_decimal_shape(n: nat)
    ensures
        decimal_of(n).len() >= 1,
        n >= 10 ==> decimal_of(n).len() >= 2,
        forall|i: int| 0 <= i < decimal_of(n).len() ==> decimal_of(n)[i] != '.',
    decreases n,
{
    if n >= 10 {
        lemma_decimal_shape(n / 10);
    }
}

proof fn lemma_decimal_injective(a: nat, b: nat)
    requires
        decimal_of(a) == decimal_of(b),
    ensures
        a == b,
    decreases a,
{
    lemma_decimal_shape(a);
    lemma_decimal_shape(b);
    if a < 10 && b < 10 {
        assert(decimal_of(a) == seq![digit_char(a)]);
        assert(decimal_of(b) == seq![digit_char(b)]);
        assert(decimal_of(a)[0] == digit_char(a));
        assert(decimal_of(b)[0] == digit_char(b));
        assert(digit_char(a) == digit_char(b));
        assert(a == b);
    } else if a < 10 {
        assert(decimal_of(a).len() == 1);
        assert(false);
    } else if b < 10 {
        assert(decimal_of(b).len() == 1);
        assert(false);
    } else {
        assert(decimal_of(a) == decimal_of(a / 10).push(digit_char(a % 10)));
        assert(decimal_of(b) == decimal_of(b / 10).push(digit_char(b % 10)));
        assert(decimal_of(a).last() == digit_char(a % 10));
        assert(decimal_of(b).last() == digit_char(b % 10));
        assert(digit_char(a % 10) == digit_char(b % 10));
        assert(a % 10 == b % 10);
        assert(decimal_of(a).drop_last() =~= decimal_of(a / 10));
        assert(decimal_of(b).drop_last() =~= decimal_of(b / 10));
        lemma_decimal_injective(a / 10, b / 10);
    }
}

/// The identity scheme never aliases two distinct (store, token-number)
/// pairs: the delimiter is the last `.` of the key, because the decimal
/// part contains no `.`, so the decomposition of a key is unique.
pub proof fn lemma_unique_id_injective(
    store_a: Seq<char>,
    id_a: nat,
    store_b: Seq<char>,
    id_b: nat,
)
    requires
        id_spec(store_a, id_a) == id_spec(store_b, id_b),
    ensures
        store_a == store_b,
        id_a == id_b,
{
    lemma_decimal_shape(id_a);
    lemma_decimal_shape(id_b);
    let u = id_spec(store_a, id_a);
    let la = store_a.len() as int;
    let lb = store_b.len() as int;
    assert(u[la] == '.');
    assert(id_spec(store_b, id_b)[lb] == '.');
    assert(u.len() == la + 1 + decimal_of(id_a).len());
    assert(u.len() == lb + 1 + decimal_of(id_b).len());
    if la < lb {
        assert(u[lb] == decimal_of(id_a)[lb - la - 1]);
        assert(false);
    }
    if lb < la {
        assert(u[la] == decimal_of(id_b)[la - lb - 1]);
        assert(false);
    }
    assert forall|i: int| 0 <= i < la implies store_a[i] == store_b[i] by {
        assert(u[i] == store_a.push('.')[i]);
        assert(u[i] == store_b.push('.')[i]);
    }
    assert(store_a =~= store_b);
    assert forall|i: int| 0 <= i < decimal_of(id_a).len() implies decimal_of(id_a)[i]
        == decimal_of(id_b)[i] by {
        assert(u[la + 1 + i] == decimal_of(id_a)[i]);
        assert(u[lb + 1 + i] == decimal_of(id_b)[i]);
    }
    assert(decimal_of(id_a) =~= decimal_of(id_b));
    lemma_decimal_injective(id_a, id_b);
}

} // verus!
