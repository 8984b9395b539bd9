use vstd::prelude::*;

verus! {

/// The ASCII character of a decimal digit.
pub open spec fn digit_char(d: nat) -> char {
    if d == 0 {
        '0'
    } else if d == 1 {
        '1'
    } else if d == 2 {
        '2'
    } else if d == 3 {
        '3'
    } else if d == 4 {
        '4'
    } else if d == 5 {
        '5'
    } else if d == 6 {
        '6'
    } else if d == 7 {
        '7'
    } else if d == 8 {
        '8'
    } else {
        '9'
    }
}

/// The decimal text of `n`, most significant digit first, without leading zeros.
pub open spec fn decimal(n: nat) -> Seq<char>
    decreases n,
{
    if n < 10 {
        seq![digit_char(n)]
    } else {
        decimal(n / 10).push(digit_char(n % 10))
    }
}

/// `count` copies of the character `'0'`.
pub open spec fn zeros(count: nat) -> Seq<char> {
    Seq::new(count, |i: int| '0')
}

/// The decimal text of `n`, filled with leading zeros up to `width` characters
/// (the text is never cut when it is longer).
pub open spec fn zero_padded(n: nat, width: nat) -> Seq<char> {
    let digits = decimal(n);
    if digits.len() < width {
        zeros((width - digits.len()) as nat) + digits
    } else {
        digits
    }
}

proof fn lemma_digit_char_injective(a: nat, b: nat)
    requires
        a < 10,
        b < 10,
        digit_char(a) == digit_char(b),
    ensures
        a == b,
{
}

/// The decimal text of a number has at least one digit, and at least two when the
/// number is 10 or more.
pub proof fn lemma_decimal_len(n: nat)
    ensures
        decimal(n).len() >= 1,
        n >= 10 ==> decimal(n).len() >= 2,
        n < 10 ==> decimal(n).len() == 1,
    decreases n,
{
    if n >= 10 {
        lemma_decimal_len(n / 10);
    }
}

/// The decimal text of a positive number does not start with `'0'`.
pub proof fn lemma_decimal_no_leading_zero(n: nat)
    requires
        n > 0,
    ensures
        decimal(n)[0] != '0',
    decreases n,
{
    if n >= 10 {
        lemma_decimal_no_leading_zero(n / 10);
        lemma_decimal_len(n / 10);
    }
}

/// Distinct numbers have distinct decimal texts.
pub proof fn lemma_decimal_injective(a: nat, b: nat)
    requires
        decimal(a) == decimal(b),
    ensures
        a == b,
    decreases a,
{
    lemma_decimal_len(a);
    lemma_decimal_len(b);
    if a < 10 && b < 10 {
        assert(decimal(a) == seq![digit_char(a)]);
        assert(decimal(b) == seq![digit_char(b)]);
        assert(seq![digit_char(a)][0] == digit_char(a));
        assert(seq![digit_char(b)][0] == digit_char(b));
        lemma_digit_char_injective(a, b);
    } else if a >= 10 && b >= 10 {
        let da = decimal(a);
        let db = decimal(b);
        assert(da.last() == db.last());
        lemma_digit_char_injective(a % 10, b % 10);
        assert(da.drop_last() =~= decimal(a / 10));
        assert(db.drop_last() =~= decimal(b / 10));
        lemma_decimal_injective(a / 10, b / 10);
    }
}

/// Distinct numbers have distinct zero-padded texts of the same width.
pub proof fn lemma_zero_padded_injective(a: nat, b: nat, width: nat)
    requires
        zero_padded(a, width) == zero_padded(b, width),
    ensures
        a == b,
{
    let da = decimal(a);
    let db = decimal(b);
    lemma_decimal_len(a);
    lemma_decimal_len(b);
    let pa = zero_padded(a, width);
    if da.len() == db.len() {
        if da.len() < width {
            assert(pa.subrange(width - da.len(), width as int) =~= da);
            assert(zero_padded(b, width).subrange(width - db.len(), width as int) =~= db);
        }
        lemma_decimal_injective(a, b);
    } else if da.len() < db.len() {
        // the longer text starts with a digit where the shorter one is still padded
        assert(b >= 10);
        lemma_decimal_no_leading_zero(b);
        let k = pa.len() - db.len();
        assert(zero_padded(b, width)[k] == db[0]);
        assert(pa[k] == '0');
    } else {
        assert(a >= 10);
        lemma_decimal_no_leading_zero(a);
        let k = pa.len() - da.len();
        assert(pa[k] == da[0]);
        assert(zero_padded(b, width)[k] == '0');
    }
}

/// The text of one decimal digit.
fn digit_str(d: u64) -> (s: &'static str)
    requires
        d < 10,
    ensures
        s@ == seq![digit_char(d as nat)],
{
    if d == 0 {
        proof { reveal_strlit("0"); }
        "0"
    } else if d == 1 {
        proof { reveal_strlit("1"); }
        "1"
    } else if d == 2 {
        proof { reveal_strlit("2"); }
        "2"
    } else if d == 3 {
        proof { reveal_strlit("3"); }
        "3"
    } else if d == 4 {
        proof { reveal_strlit("4"); }
        "4"
    } else if d == 5 {
        proof { reveal_strlit("5"); }
        "5"
    } else if d == 6 {
        proof { reveal_strlit("6"); }
        "6"
    } else if d == 7 {
        proof { reveal_strlit("7"); }
        "7"
    } else if d == 8 {
        proof { reveal_strlit("8"); }
        "8"
    } else {
        proof { reveal_strlit("9"); }
        "9"
    }
}

/// Appends the decimal text of `n` to `out`.
pub fn push_decimal(out: &mut String, n: u64)
    ensures
        final(out)@ == old(out)@ + decimal(n as nat),
    decreases n,
{
    if n >= 10 {
        push_decimal(out, n / 10);
    }
    out.append(digit_str(n % 10));
    proof {
        assert(decimal(n as nat) =~= if n < 10 {
            seq![digit_char(n as nat)]
        } else {
            decimal((n / 10) as nat).push(digit_char((n % 10) as nat))
        });
    }
}

/// The number of digits in the decimal text of `n`.
pub fn decimal_len(n: u64) -> (len: usize)
    ensures
        len == decimal(n as nat).len(),
    decreases n,
{
    proof {
        lemma_decimal_len(n as nat);
    }
    if n < 10 {
        1
    } else {
        proof {
            lemma_decimal_len_bound(n);
        }
        decimal_len(n / 10) + 1
    }
}

spec fn pow10(k: nat) -> nat
    decreases k,
{
    if k == 0 {
        1
    } else {
        10 * pow10((k - 1) as nat)
    }
}

proof fn lemma_decimal_len_pow10(n: nat, k: nat)
    requires
        k >= 1,
        n < pow10(k),
    ensures
        decimal(n).len() <= k,
    decreases k,
{
    if n >= 10 {
        assert(k >= 2) by {
            if k == 1 {
                assert(pow10(1) == 10 * pow10(0));
            }
        }
        assert(pow10(k) == 10 * pow10((k - 1) as nat));
        lemma_decimal_len_pow10(n / 10, (k - 1) as nat);
    }
}

proof fn lemma_decimal_len_bound(n: u64)
    ensures
        decimal(n as nat).len() <= 20,
{
    reveal_with_fuel(pow10, 21);
    assert(pow10(20) == 100000000000000000000nat);
    lemma_decimal_len_pow10(n as nat, 20);
}

/// Appends the decimal text of `n`, filled with leading zeros up to `width`
/// characters, to `out`.
pub fn push_zero_padded(out: &mut String, n: u64, width: usize)
    ensures
        final(out)@ == old(out)@ + zero_padded(n as nat, width as nat),
{
    let len = decimal_len(n);
    let ghost start = out@;
    if len < width {
        let fill = width - len;
        let mut i: usize = 0;
        while i < fill
            invariant
                i <= fill,
                out@ == start + zeros(i as nat),
            decreases fill - i,
        {
            proof {
                reveal_strlit("0");
            }
            out.append("0");
            i = i + 1;
            assert(out@ =~= start + zeros(i as nat));
        }
        push_decimal(out, n);
        assert(out@ =~= start + zero_padded(n as nat, width as nat));
    } else {
        push_decimal(out, n);
    }
}


/// Whether `c` is one of the ASCII digits `'0'` to `'9'`.
pub open spec fn is_digit(c: char) -> bool {
    48 <= (c as int) && (c as int) <= 57
}

/// Whether every character of `s` is an ASCII digit.
pub open spec fn all_digits(s: Seq<char>) -> bool {
    forall|k: int| 0 <= k < s.len() ==> is_digit(#[trigger] s[k])
}

/// The number that a text of ASCII digits denotes in base ten, most significant
/// digit first (the empty text denotes 0).
pub open spec fn digits_value(s: Seq<char>) -> int
    decreases s.len(),
{
    if s.len() == 0 {
        0
    } else {
        digits_value(s.drop_last()) * 10 + ((s.last() as int) - 48)
    }
}

proof fn lemma_digit_char_reads_back(d: nat)
    requires
        d < 10,
    ensures
        is_digit(digit_char(d)),
        (digit_char(d) as int) - 48 == d,
{
}

/// The decimal text of a number is a non-empty text of digits that reads back as
/// that number.
pub proof fn lemma_decimal_reads_back(n: nat)
    ensures
        all_digits(decimal(n)),
        decimal(n).len() >= 1,
        digits_value(decimal(n)) == n,
    decreases n,
{
    let d = decimal(n);
    if n < 10 {
        lemma_digit_char_reads_back(n);
        assert(d == seq![digit_char(n)]);
        assert(d.drop_last() =~= Seq::<char>::empty());
        assert(digits_value(d.drop_last()) == 0);
    } else {
        lemma_decimal_reads_back(n / 10);
        lemma_digit_char_reads_back(n % 10);
        assert(d.drop_last() =~= decimal(n / 10));
        assert forall|k: int| 0 <= k < d.len() implies is_digit(#[trigger] d[k]) by {
            if k < d.len() - 1 {
                assert(d[k] == decimal(n / 10)[k]);
            }
        }
    }
}

proof fn lemma_digits_value_append(a: Seq<char>, b: Seq<char>)
    ensures
        digits_value(a + b) == digits_value(a) * pow10(b.len()) + digits_value(b),
    decreases b.len(),
{
    if b.len() == 0 {
        assert(a + b =~= a);
        assert(pow10(0) == 1);
    } else {
        lemma_digits_value_append(a, b.drop_last());
        assert((a + b).drop_last() =~= a + b.drop_last());
        assert((a + b).last() == b.last());
        assert(pow10(b.len()) == 10 * pow10((b.len() - 1) as nat));
        let va = digits_value(a);
        let p = pow10((b.len() - 1) as nat);
        assert(va * (10 * p) == (va * p) * 10) by (nonlinear_arith);
    }
}

proof fn lemma_zeros_value(count: nat)
    ensures
        all_digits(zeros(count)),
        digits_value(zeros(count)) == 0,
    decreases count,
{
    if count > 0 {
        lemma_zeros_value((count - 1) as nat);
        assert(zeros(count).drop_last() =~= zeros((count - 1) as nat));
    }
}

/// The zero-padded text of a number is a text of digits, at least `width` long
/// (and never shorter than one digit), that reads back as that number.
pub proof fn lemma_zero_padded_reads_back(n: nat, width: nat)
    ensures
        all_digits(zero_padded(n, width)),
        zero_padded(n, width).len() >= width,
        zero_padded(n, width).len() >= 1,
        digits_value(zero_padded(n, width)) == n,
{
    lemma_decimal_reads_back(n);
    let d = decimal(n);
    if d.len() < width {
        let z = zeros((width - d.len()) as nat);
        lemma_zeros_value((width - d.len()) as nat);
        lemma_digits_value_append(z, d);
        let p = zero_padded(n, width);
        assert(p == z + d);
        assert forall|k: int| 0 <= k < p.len() implies is_digit(#[trigger] p[k]) by {
            if k < z.len() {
                assert(p[k] == z[k]);
            } else {
                assert(p[k] == d[k - z.len()]);
            }
        }
    }
}

} // verus!
