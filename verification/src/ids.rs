//! Account identities as decimal strings.
//!
//! The user directory assigns each account the decimal rendering of a
//! strictly increasing counter. Distinct counters give distinct strings
//! ([`lemma_dec_seq_injective`]), and no identity is ever as long as a
//! session token ([`lemma_dec_seq_len_le_20`]), so identity keys and token
//! keys never collide in the shared cache keyspace.

use vstd::prelude::*;

verus! {

use vstd::arithmetic::div_mod::lemma_fundamental_div_mod;

/// The character for one decimal digit.
pub open spec fn digit_char(d: nat) -> char
    recommends
        d < 10,
{
    ((48 + d) as u8) as char
}

/// The decimal rendering of a natural number, most significant digit first.
pub open spec fn dec_seq(n: nat) -> Seq<char>
    decreases n,
{
    if n < 10 {
        seq![digit_char(n)]
    } else {
        dec_seq(n / 10) + seq![digit_char(n % 10)]
    }
}

spec fn pow10(k: nat) -> nat
    decreases k,
{
    if k == 0 {
        1
    } else {
        10 * pow10((k - 1) as nat)
    }
}

proof fn lemma_dec_seq_len_pos(n: nat)
    ensures
        dec_seq(n).len() >= 1,
    decreases n,
{
    if n >= 10 {
        lemma_dec_seq_len_pos(n / 10);
    }
}

/// Law: decimal renderings are injective; two different counters never give
/// the same identity string.
pub proof fn lemma_dec_seq_injective(m: nat, n: nat)
    requires
        dec_seq(m) == dec_seq(n),
    ensures
        m == n,
    decreases m,
{
    if m < 10 && n < 10 {
        assert(dec_seq(m)[0] == digit_char(m));
        assert(dec_seq(n)[0] == digit_char(n));
        assert((48 + m) as u8 == (48 + n) as u8);
    } else if m < 10 && n >= 10 {
        lemma_dec_seq_len_pos(n / 10);
        assert(dec_seq(n).len() >= 2);
        assert(dec_seq(m).len() == 1);
    } else if m >= 10 && n < 10 {
        lemma_dec_seq_len_pos(m / 10);
        assert(dec_seq(m).len() >= 2);
        assert(dec_seq(n).len() == 1);
    } else {
        let dm = dec_seq(m);
        let dn = dec_seq(n);
        assert(dm.last() == digit_char(m % 10));
        assert(dn.last() == digit_char(n % 10));
        assert((48 + m % 10) as u8 == (48 + n % 10) as u8);
        assert(m % 10 == n % 10);
        assert(dm.drop_last() =~= dec_seq(m / 10));
        assert(dn.drop_last() =~= dec_seq(n / 10));
        lemma_dec_seq_injective(m / 10, n / 10);
        lemma_fundamental_div_mod(m as int, 10);
        lemma_fundamental_div_mod(n as int, 10);
    }
}

proof fn lemma_dec_seq_len_le(n: nat, k: nat)
    requires
        k >= 1,
        n < pow10(k),
    ensures
        dec_seq(n).len() <= k,
    decreases k,
{
    if n >= 10 {
        assert(pow10(k) == 10 * pow10((k - 1) as nat));
        assert(k >= 2) by {
            if k == 1 {
                assert(pow10(1nat) == 10);
            }
        }
        assert(n / 10 < pow10((k - 1) as nat)) by {
            lemma_fundamental_div_mod(n as int, 10);
        }
        lemma_dec_seq_len_le(n / 10, (k - 1) as nat);
    }
}

/// Law: the decimal rendering of a 64-bit counter has at most 20 characters,
/// strictly fewer than a session token has.
pub proof fn lemma_dec_seq_len_le_20(n: u64)
    ensures
        dec_seq(n as nat).len() <= 20,
{
    assert(pow10(20nat) == 0x56BC75E2D63100000) by {
        reveal_with_fuel(pow10, 21);
    }
    lemma_dec_seq_len_le(n as nat, 20);
}

/// The digit characters of `ds`, last digit first.
spec fn rev_chars(ds: Seq<u64>) -> Seq<char>
    decreases ds.len(),
{
    if ds.len() == 0 {
        Seq::empty()
    } else {
        seq![digit_char(ds.last() as nat)] + rev_chars(ds.drop_last())
    }
}

proof fn lemma_rev_chars_len(ds: Seq<u64>)
    ensures
        rev_chars(ds).len() == ds.len(),
    decreases ds.len(),
{
    if ds.len() > 0 {
        lemma_rev_chars_len(ds.drop_last());
    }
}

proof fn lemma_rev_chars_index(ds: Seq<u64>, j: int)
    requires
        0 <= j < ds.len(),
    ensures
        rev_chars(ds).len() == ds.len(),
        rev_chars(ds)[j] == digit_char(ds[ds.len() - 1 - j] as nat),
    decreases ds.len(),
{
    lemma_rev_chars_len(ds);
    if j > 0 {
        lemma_rev_chars_index(ds.drop_last(), j - 1);
    }
}

fn digit_str(d: u64) -> (r: &'static str)
    requires
        d < 10,
    ensures
        r@ =~= seq![digit_char(d as nat)],
{
    proof {
        reveal_strlit("0");
        reveal_strlit("1");
        reveal_strlit("2");
        reveal_strlit("3");
        reveal_strlit("4");
        reveal_strlit("5");
        reveal_strlit("6");
        reveal_strlit("7");
        reveal_strlit("8");
        reveal_strlit("9");
    }
    match d {
        0 => "0",
        1 => "1",
        2 => "2",
        3 => "3",
        4 => "4",
        5 => "5",
        6 => "6",
        7 => "7",
        8 => "8",
        _ => "9",
    }
}

/// Renders a 64-bit counter as its decimal string.
pub fn u64_to_dec(n: u64) -> (s: String)
    ensures
        s@ == dec_seq(n as nat),
{
    let mut digits: Vec<u64> = Vec::new();
    let mut m = n;
    loop
        invariant_except_break
            digits@.len() >= 1 ==> {
                &&& (forall|j: int| 0 <= j < digits@.len() ==> #[trigger] digits@[j] < 10)
                &&& m >= 1
                &&& dec_seq(n as nat) =~= dec_seq(m as nat) + rev_chars(digits@)
            },
            digits@.len() == 0 ==> m == n,
        ensures
            digits@.len() >= 1,
            forall|j: int| 0 <= j < digits@.len() ==> #[trigger] digits@[j] < 10,
            dec_seq(n as nat) =~= rev_chars(digits@),
        decreases m, (if digits@.len() == 0 { 1int } else { 0int }),
    {
        let ghost old_digits = digits@;
        let ghost old_m = m;
        digits.push(m % 10);
        m = m / 10;
        proof {
            assert(digits@.drop_last() =~= old_digits);
            assert(rev_chars(digits@) =~= seq![digit_char((old_m % 10) as nat)] + rev_chars(
                old_digits,
            ));
            if old_digits.len() == 0 {
                assert(rev_chars(old_digits) =~= Seq::<char>::empty());
                if old_m < 10 {
                    assert(old_m % 10 == old_m);
                    assert(dec_seq(n as nat) =~= seq![digit_char(old_m as nat)]);
                } else {
                    assert(dec_seq(n as nat) =~= dec_seq((old_m / 10) as nat) + seq![
                        digit_char((old_m % 10) as nat),
                    ]);
                }
            } else {
                if old_m < 10 {
                    assert(old_m % 10 == old_m);
                    assert(dec_seq(old_m as nat) =~= seq![digit_char((old_m % 10) as nat)]);
                } else {
                    assert(dec_seq(old_m as nat) =~= dec_seq(m as nat) + seq![
                        digit_char((old_m % 10) as nat),
                    ]);
                }
            }
            assert(dec_seq(n as nat) =~= (if m == 0 {
                Seq::<char>::empty()
            } else {
                dec_seq(m as nat)
            }) + rev_chars(digits@));
        }
        if m == 0 {
            break ;
        }
    }
    let mut out = String::new();
    let mut i: usize = digits.len();
    while i > 0
        invariant
            i <= digits@.len(),
            forall|j: int| 0 <= j < digits@.len() ==> #[trigger] digits@[j] < 10,
            out@.len() == digits@.len() - i,
            forall|j: int|
                0 <= j < out@.len() ==> #[trigger] out@[j] == digit_char(
                    digits@[digits@.len() - 1 - j] as nat,
                ),
        decreases i,
    {
        i -= 1;
        let d = digits[i];
        out.append(digit_str(d));
    }
    proof {
        lemma_rev_chars_len(digits@);
        assert forall|j: int| 0 <= j < out@.len() implies out@[j] == rev_chars(digits@)[j] by {
            lemma_rev_chars_index(digits@, j);
        }
        assert(out@ =~= rev_chars(digits@));
    }
    out
}

} // verus!
