//! Exactly specified text building: decimal rendering and
//! S-expression shapes.

use vstd::prelude::*;

verus! {

/// The character of one decimal digit.
pub open spec fn digit_char(d: int) -> char {
    if d == 0 {
        '0'
    } else if d == 1 {
        '1'
    } else if d == 2 {
        '2'
    } else if d == 3 {
        '3'
    } else if d == 4 {
        '4'
    } else if d == 5 {
        '5'
    } else if d == 6 {
        '6'
    } else if d == 7 {
        '7'
    } else if d == 8 {
        '8'
    } else {
        '9'
    }
}

/// The decimal rendering of a number, most significant digit first.
pub open spec fn dec_str(n: nat) -> Seq<char>
    decreases n,
{
    if n < 10 {
        seq![digit_char(n as int)]
    } else {
        dec_str(n / 10).push(digit_char((n % 10) as int))
    }
}

/// Append one digit character.
fn push_digit(s: &mut String, d: u64)
    requires
        d < 10,
    ensures
        final(s)@ == old(s)@.push(digit_char(d as int)),
{
    proof {
        reveal_strlit("0");
        reveal_strlit("1");
        reveal_strlit("2");
        reveal_strlit("3");
        reveal_strlit("4");
        reveal_strlit("5");
        reveal_strlit("6");
        reveal_strlit("7");
        reveal_strlit("8");
        reveal_strlit("9");
    }
    if d == 0 {
        s.append("0");
    } else if d == 1 {
        s.append("1");
    } else if d == 2 {
        s.append("2");
    } else if d == 3 {
        s.append("3");
    } else if d == 4 {
        s.append("4");
    } else if d == 5 {
        s.append("5");
    } else if d == 6 {
        s.append("6");
    } else if d == 7 {
        s.append("7");
    } else if d == 8 {
        s.append("8");
    } else {
        s.append("9");
    }
    proof {
        assert(s@ =~= old(s)@.push(digit_char(d as int)));
    }
}

/// The digit characters of `ds` read back to front.
pub open spec fn rev_digit_chars(ds: Seq<u64>) -> Seq<char> {
    Seq::new(ds.len(), |i: int| digit_char(ds[ds.len() - 1 - i] as int))
}

/// Render a number in decimal.
pub fn u64_to_string(n: u64) -> (r: String)
    ensures
        r@ == dec_str(n as nat),
{
    let mut digits: Vec<u64> = Vec::new();
    let mut m: u64 = n;
    digits.push(m % 10);
    m = m / 10;
    while m > 0
        invariant
            digits@.len() >= 1,
            forall|i: int| 0 <= i < digits@.len() ==> #[trigger] digits@[i] < 10,
            dec_str(n as nat) =~= (if m > 0 {
                dec_str(m as nat)
            } else {
                Seq::<char>::empty()
            }) + rev_digit_chars(digits@),
        decreases m,
    {
        let ghost pre = digits@;
        digits.push(m % 10);
        let m2: u64 = m / 10;
        proof {
            assert(rev_digit_chars(digits@) =~= seq![digit_char((m % 10) as int)]
                + rev_digit_chars(pre));
            if m2 > 0 {
                assert(dec_str(m as nat) == dec_str((m / 10) as nat).push(
                    digit_char((m % 10) as int),
                ));
                assert(dec_str(m as nat) =~= dec_str(m2 as nat) + seq![
                    digit_char((m % 10) as int),
                ]);
            } else {
                assert(m < 10);
                assert(dec_str(m as nat) == seq![digit_char(m as int)]);
            }
            assert(dec_str(n as nat) =~= (if m2 > 0 {
                dec_str(m2 as nat)
            } else {
                Seq::<char>::empty()
            }) + rev_digit_chars(digits@));
        }
        m = m2;
    }
    let mut out = String::new();
    let k = digits.len();
    for i in 0..k
        invariant
            k == digits@.len(),
            k >= 1,
            forall|j: int| 0 <= j < digits@.len() ==> #[trigger] digits@[j] < 10,
            dec_str(n as nat) =~= rev_digit_chars(digits@),
            out@ =~= rev_digit_chars(digits@).take(i as int),
    {
        push_digit(&mut out, digits[k - 1 - i]);
        proof {
            assert(rev_digit_chars(digits@)[i as int] == digit_char(
                digits@[k - 1 - i] as int,
            ));
            assert(out@ =~= rev_digit_chars(digits@).take(i + 1));
        }
    }
    proof {
        assert(rev_digit_chars(digits@).take(k as int) =~= rev_digit_chars(digits@));
    }
    out
}

/// `(op a)`.
pub open spec fn app1_s(op: Seq<char>, a: Seq<char>) -> Seq<char> {
    "("@ + op + " "@ + a + ")"@
}

/// `(op a b)`.
pub open spec fn app2_s(op: Seq<char>, a: Seq<char>, b: Seq<char>) -> Seq<char> {
    "("@ + op + " "@ + a + " "@ + b + ")"@
}

/// Build `(op a)`.
pub fn app1(op: &str, a: &str) -> (r: String)
    ensures
        r@ == app1_s(op@, a@),
{
    let mut s = String::from_str("(");
    s.append(op);
    s.append(" ");
    s.append(a);
    s.append(")");
    s
}

/// Build `(op a b)`.
pub fn app2(op: &str, a: &str, b: &str) -> (r: String)
    ensures
        r@ == app2_s(op@, a@, b@),
{
    let mut s = String::from_str("(");
    s.append(op);
    s.append(" ");
    s.append(a);
    s.append(" ");
    s.append(b);
    s.append(")");
    s
}

} // verus!
