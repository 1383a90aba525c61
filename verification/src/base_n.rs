//! Numbers written in a base between 2 and 64, most significant digit
//! first, as used in the names of object files and local symbols.

use vstd::prelude::*;
use vstd::string::*;

verus! {

/// The largest base that has digits.
pub const MAX_BASE: usize = 64;

/// The base whose digits are the decimal digits and the letters.
pub const ALPHANUMERIC_ONLY: usize = 62;

/// The base whose digits are the decimal digits and the lower-case letters.
pub const CASE_INSENSITIVE: usize = 36;

/// The digits, by value.
pub open spec fn digits() -> Seq<char> {
    "0123456789abcdefghijklmnopqrstuvwxyzABCDEFGHIJKLMNOPQRSTUVWXYZ@$"@
}

/// `n` written in `base`: one digit for a number below the base, else the
/// digits of `n / base` followed by the digit of `n % base`.
pub open spec fn encode_spec(n: nat, base: nat) -> Seq<char>
    decreases n,
{
    if base < 2 || n < base {
        seq![digits()[n as int]]
    } else {
        proof {
            lemma_small_quotient(n as int, base as int);
        }
        encode_spec(n / base, base).push(digits()[(n % base) as int])
    }
}

/// Every character of a number written in a base is one of the digits
/// below the base.
pub proof fn lemma_encode_digits(n: nat, base: nat)
    requires
        2 <= base <= 64,
    ensures
        encode_spec(n, base).len() >= 1,
        forall|i: int|
            0 <= i < encode_spec(n, base).len() ==> exists|d: int|
                0 <= d < base && #[trigger] encode_spec(n, base)[i] == digits()[d],
    decreases n,
{
    lemma_small_quotient(n as int, base as int);
    if n >= base {
        lemma_encode_digits(n / base, base);
        let front = encode_spec(n / base, base);
        assert forall|i: int| 0 <= i < encode_spec(n, base).len() implies exists|d: int|
            0 <= d < base && #[trigger] encode_spec(n, base)[i] == digits()[d] by {
            if i < front.len() {
                assert(encode_spec(n, base)[i] == front[i]);
            } else {
                assert(encode_spec(n, base)[i] == digits()[(n % base) as int]);
            }
        }
    } else {
        assert(encode_spec(n, base)[0] == digits()[n as int]);
    }
}

/// Division by a base of at least 2: the quotient is smaller than a
/// positive number, and zero exactly for a number below the base.
pub proof fn lemma_small_quotient(n: int, b: int)
    requires
        0 <= n,
        2 <= b,
    ensures
        n / b == 0 <==> n < b,
        0 <= n % b < b,
        0 <= n / b <= n,
        n / b < n || n == 0,
        n < b ==> n % b == n,
{
    assert(n < b ==> n % b == n) by (nonlinear_arith)
        requires
            0 <= n,
            2 <= b,
    ;
    assert(n / b == 0 <==> n < b) by (nonlinear_arith)
        requires
            0 <= n,
            2 <= b,
    ;
    assert(0 <= n % b < b) by (nonlinear_arith)
        requires
            0 <= n,
            2 <= b,
    ;
    assert(0 <= n / b <= n && (n / b < n || n == 0)) by (nonlinear_arith)
        requires
            0 <= n,
            2 <= b,
    ;
}

/// Writes `n` in `base`.
pub fn encode(n: u128, base: usize) -> (s: String)
    requires
        2 <= base <= MAX_BASE,
    ensures
        s@ == encode_spec(n as nat, base as nat),
{
    let alphabet = "0123456789abcdefghijklmnopqrstuvwxyzABCDEFGHIJKLMNOPQRSTUVWXYZ@$";
    proof {
        reveal_strlit("0123456789abcdefghijklmnopqrstuvwxyzABCDEFGHIJKLMNOPQRSTUVWXYZ@$");
        assert(alphabet@.len() == 64);
    }
    let b = base as u128;
    let mut rest: u128 = n;
    let d0 = (rest % b) as usize;
    let mut out = String::from_str(alphabet.substring_ascii(d0, d0 + 1));
    rest = rest / b;
    proof {
        assert(out@ =~= seq![digits()[d0 as int]]);
        lemma_small_quotient(n as int, b as int);
        if rest != 0 {
            assert(encode_spec(n as nat, base as nat) =~= encode_spec(rest as nat, base as nat) + out@);
        }
    }
    // `out` holds the digits that stand behind those of `rest`.
    while rest > 0
        invariant
            2 <= base <= 64,
            b == base,
            alphabet@ == digits(),
            alphabet@.len() == 64,
            alphabet.is_ascii(),
            encode_spec(n as nat, base as nat) == if rest == 0 {
                out@
            } else {
                encode_spec(rest as nat, base as nat) + out@
            },
        decreases rest,
    {
        let d = (rest % b) as usize;
        let digit = alphabet.substring_ascii(d, d + 1);
        let ghost before = out@;
        out = String::from_str(digit).concat(out.as_str());
        proof {
            assert(digit@ =~= seq![digits()[d as int]]);
            let q = (rest / b) as nat;
            lemma_small_quotient(rest as int, b as int);
            if q == 0 {
                assert(encode_spec(rest as nat, base as nat) =~= seq![digits()[d as int]]);
                assert(encode_spec(rest as nat, base as nat) + before =~= out@);
            } else {
                assert(encode_spec(rest as nat, base as nat) =~= encode_spec(q, base as nat).push(
                    digits()[d as int],
                ));
                assert(encode_spec(rest as nat, base as nat) + before =~= encode_spec(q, base as nat)
                    + out@);
            }
        }
        rest = rest / b;
    }
    out
}

} // verus!
