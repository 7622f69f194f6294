//! Rendering of numbers and booleans as the decimal strings that appear in
//! transfer identifiers and response attributes.

use vstd::prelude::*;

verus! {

/// The character for a single decimal digit.
pub open spec fn digit_char(d: nat) -> char {
    if d == 0 {
        '0'
    } else if d == 1 {
        '1'
    } else if d == 2 {
        '2'
    } else if d == 3 {
        '3'
    } else if d == 4 {
        '4'
    } else if d == 5 {
        '5'
    } else if d == 6 {
        '6'
    } else if d == 7 {
        '7'
    } else if d == 8 {
        '8'
    } else {
        '9'
    }
}

/// The decimal digits of `n`, most significant first; empty for zero.
pub open spec fn dec_rec(n: nat) -> Seq<char>
    decreases n,
{
    if n == 0 {
        Seq::empty()
    } else {
        dec_rec(n / 10) + seq![digit_char(n % 10)]
    }
}

/// The usual decimal rendering of `n` (zero is `"0"`).
pub open spec fn dec_str(n: nat) -> Seq<char> {
    if n == 0 {
        seq!['0']
    } else {
        dec_rec(n)
    }
}

/// The view promised by [`bool_str`].
pub open spec fn spec_bool_str(b: bool) -> Seq<char> {
    if b {
        "true"@
    } else {
        "false"@
    }
}

/// Renders a boolean as `"true"` or `"false"`.
pub fn bool_str(b: bool) -> (r: &'static str)
    ensures
        r@ == spec_bool_str(b),
{
    if b {
        "true"
    } else {
        "false"
    }
}

/// The digit characters of `ds`, read back to front.
spec fn digits_to_chars_rev(ds: Seq<u8>) -> Seq<char>
    decreases ds.len(),
{
    if ds.len() == 0 {
        Seq::empty()
    } else {
        seq![digit_char(ds.last() as nat)] + digits_to_chars_rev(ds.drop_last())
    }
}

proof fn lemma_dtcr_drop_first(ds: Seq<u8>)
    requires
        ds.len() > 0,
    ensures
        digits_to_chars_rev(ds) == digits_to_chars_rev(ds.drop_first()) + seq![
            digit_char(ds[0] as nat),
        ],
    decreases ds.len(),
{
    if ds.len() == 1 {
        assert(ds.drop_last() =~= Seq::<u8>::empty());
        assert(ds.drop_first() =~= Seq::<u8>::empty());
        assert(digits_to_chars_rev(ds) =~= digits_to_chars_rev(ds.drop_first()) + seq![
            digit_char(ds[0] as nat),
        ]);
    } else {
        lemma_dtcr_drop_first(ds.drop_last());
        assert(ds.drop_last().drop_first() =~= ds.drop_first().drop_last());
        assert(ds.drop_first().last() == ds.last());
        assert(digits_to_chars_rev(ds.drop_first()) == seq![digit_char(ds.last() as nat)]
            + digits_to_chars_rev(ds.drop_first().drop_last()));
        assert(digits_to_chars_rev(ds) =~= digits_to_chars_rev(ds.drop_first()) + seq![
            digit_char(ds[0] as nat),
        ]);
    }
}

/// The one-character string for a decimal digit.
fn digit_str(d: u8) -> (r: &'static str)
    requires
        d < 10,
    ensures
        r@ == seq![digit_char(d as nat)],
{
    if d == 0 {
        proof {
            reveal_strlit("0");
            assert("0"@ =~= seq![digit_char(0)]);
        }
        "0"
    } else if d == 1 {
        proof {
            reveal_strlit("1");
            assert("1"@ =~= seq![digit_char(1)]);
        }
        "1"
    } else if d == 2 {
        proof {
            reveal_strlit("2");
            assert("2"@ =~= seq![digit_char(2)]);
        }
        "2"
    } else if d == 3 {
        proof {
            reveal_strlit("3");
            assert("3"@ =~= seq![digit_char(3)]);
        }
        "3"
    } else if d == 4 {
        proof {
            reveal_strlit("4");
            assert("4"@ =~= seq![digit_char(4)]);
        }
        "4"
    } else if d == 5 {
        proof {
            reveal_strlit("5");
            assert("5"@ =~= seq![digit_char(5)]);
        }
        "5"
    } else if d == 6 {
        proof {
            reveal_strlit("6");
            assert("6"@ =~= seq![digit_char(6)]);
        }
        "6"
    } else if d == 7 {
        proof {
            reveal_strlit("7");
            assert("7"@ =~= seq![digit_char(7)]);
        }
        "7"
    } else if d == 8 {
        proof {
            reveal_strlit("8");
            assert("8"@ =~= seq![digit_char(8)]);
        }
        "8"
    } else {
        proof {
            reveal_strlit("9");
            assert("9"@ =~= seq![digit_char(9)]);
        }
        "9"
    }
}

/// Renders `n` in decimal, exactly (128-bit values round-trip without loss).
pub fn u128_to_dec(n: u128) -> (s: String)
    ensures
        s@ == dec_str(n as nat),
{
    if n == 0 {
        let s = String::from_str(digit_str(0));
        proof {
            assert(s@ =~= dec_str(0));
        }
        return s;
    }
    let mut digits: Vec<u8> = Vec::new();
    let mut m = n;
    while m > 0
        invariant
            dec_rec(n as nat) == dec_rec(m as nat) + digits_to_chars_rev(digits@),
            forall|j: int| 0 <= j < digits@.len() ==> digits@[j] < 10,
            m == 0 ==> digits@.len() > 0,
            n > 0,
        decreases m,
    {
        let d: u8 = (m % 10) as u8;
        proof {
            let ds = digits@;
            assert(ds.push(d).drop_last() =~= ds);
            assert(digits_to_chars_rev(ds.push(d)) == seq![digit_char(d as nat)]
                + digits_to_chars_rev(ds));
            assert(dec_rec(m as nat) == dec_rec((m as nat) / 10) + seq![
                digit_char((m as nat) % 10),
            ]);
            assert(dec_rec((m as nat) / 10) + (seq![digit_char(d as nat)]
                + digits_to_chars_rev(ds)) =~= (dec_rec((m as nat) / 10) + seq![
                digit_char(d as nat),
            ]) + digits_to_chars_rev(ds));
            assert((m as nat) / 10 == (m / 10) as nat);
        }
        digits.push(d);
        m = m / 10;
    }
    let mut s = String::new();
    let mut i = digits.len();
    proof {
        assert(digits@.skip(i as int) =~= Seq::<u8>::empty());
    }
    while i > 0
        invariant
            i <= digits@.len(),
            forall|j: int| 0 <= j < digits@.len() ==> digits@[j] < 10,
            s@ == digits_to_chars_rev(digits@.skip(i as int)),
        decreases i,
    {
        i -= 1;
        let d = digits[i];
        proof {
            lemma_dtcr_drop_first(digits@.skip(i as int));
            assert(digits@.skip(i as int).drop_first() =~= digits@.skip(i as int + 1));
            assert(digits@.skip(i as int)[0] == digits@[i as int]);
        }
        s.append(digit_str(d));
    }
    proof {
        assert(digits@.skip(0) =~= digits@);
    }
    s
}

} // verus!
