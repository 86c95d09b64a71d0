use vstd::prelude::*;

verus! {

/// The character of the decimal digit `d` (for `d < 10`).
pub open spec fn digit_char(d: nat) -> char {
    if d == 0 { '0' }
    else if d == 1 { '1' }
    else if d == 2 { '2' }
    else if d == 3 { '3' }
    else if d == 4 { '4' }
    else if d == 5 { '5' }
    else if d == 6 { '6' }
    else if d == 7 { '7' }
    else if d == 8 { '8' }
    else { '9' }
}

/// The decimal representation of `n`, without leading zeros.
pub open spec fn decimal_digits(n: nat) -> Seq<char>
    decreases n,
{
    if n < 10 {
        seq![digit_char(n)]
    } else {
        decimal_digits(n / 10).push(digit_char(n % 10))
    }
}

/// The decimal representation of `n`, padded on the left with zeros to `width` characters.
pub open spec fn zero_padded(n: nat, width: nat) -> Seq<char> {
    let d = decimal_digits(n);
    if d.len() >= width {
        d
    } else {
        Seq::new((width - d.len()) as nat, |i: int| '0') + d
    }
}

fn digit_string(d: u64) -> (s: String)
    requires
        d < 10,
    ensures
        s@ == seq![digit_char(d as nat)],
{
    if d == 0 {
        proof { reveal_strlit("0"); }
        String::from_str("0")
    } else if d == 1 {
        proof { reveal_strlit("1"); }
        String::from_str("1")
    } else if d == 2 {
        proof { reveal_strlit("2"); }
        String::from_str("2")
    } else if d == 3 {
        proof { reveal_strlit("3"); }
        String::from_str("3")
    } else if d == 4 {
        proof { reveal_strlit("4"); }
        String::from_str("4")
    } else if d == 5 {
        proof { reveal_strlit("5"); }
        String::from_str("5")
    } else if d == 6 {
        proof { reveal_strlit("6"); }
        String::from_str("6")
    } else if d == 7 {
        proof { reveal_strlit("7"); }
        String::from_str("7")
    } else if d == 8 {
        proof { reveal_strlit("8"); }
        String::from_str("8")
    } else {
        proof { reveal_strlit("9"); }
        String::from_str("9")
    }
}

/// The decimal representation of `n`.
pub fn decimal_string(n: u64) -> (s: String)
    ensures
        s@ == decimal_digits(n as nat),
    decreases n,
{
    if n < 10 {
        digit_string(n)
    } else {
        let mut s = decimal_string(n / 10);
        let d = digit_string(n % 10);
        s.append(d.as_str());
        s
    }
}

/// The decimal representation of `n`, padded on the left with zeros to `width` characters.
pub fn zero_padded_string(n: u64, width: usize) -> (s: String)
    ensures
        s@ == zero_padded(n as nat, width as nat),
{
    let digits = decimal_string(n);
    let len = digits.as_str().unicode_len();
    if len >= width {
        return digits;
    }
    let mut s = String::new();
    let mut i: usize = 0;
    while i < width - len
        invariant
            len == decimal_digits(n as nat).len(),
            len < width,
            i <= width - len,
            s@ == Seq::new(i as nat, |k: int| '0'),
        decreases width - len - i,
    {
        proof { reveal_strlit("0"); }
        s.append("0");
        assert(s@ =~= Seq::new((i + 1) as nat, |k: int| '0'));
        i = i + 1;
    }
    s.append(digits.as_str());
    assert(s@ =~= zero_padded(n as nat, width as nat));
    s
}

/// The concatenation of `a` and `b` as a new string.
pub fn concat(a: &str, b: &str) -> (s: String)
    ensures
        s@ == a@ + b@,
{
    let mut s = String::from_str(a);
    s.append(b);
    s
}


/// `s` padded on the left with spaces to `width` characters.
pub open spec fn pad_left(s: Seq<char>, width: nat) -> Seq<char> {
    if s.len() >= width {
        s
    } else {
        Seq::new((width - s.len()) as nat, |i: int| ' ') + s
    }
}

/// `s` padded on the left with spaces to `width` characters (see `pad_left`).
pub fn pad_left_string(s: &str, width: usize) -> (r: String)
    ensures
        r@ == pad_left(s@, width as nat),
{
    let len = s.unicode_len();
    if len >= width {
        return String::from_str(s);
    }
    let mut r = String::new();
    let mut i: usize = 0;
    while i < width - len
        invariant
            len == s@.len(),
            len < width,
            i <= width - len,
            r@ == Seq::new(i as nat, |k: int| ' '),
        decreases width - len - i,
    {
        proof { reveal_strlit(" "); }
        r.append(" ");
        assert(r@ =~= Seq::new((i + 1) as nat, |k: int| ' '));
        i = i + 1;
    }
    r.append(s);
    assert(r@ =~= pad_left(s@, width as nat));
    r
}

/// The decimal digits of `n` in groups of two, separated by commas.
pub open spec fn paired_digits(n: nat) -> Seq<char>
    decreases n,
{
    if n < 100 {
        decimal_digits(n)
    } else {
        paired_digits(n / 100) + ","@ + zero_padded(n % 100, 2)
    }
}

/// `n` written in the Indian numbering system: the last three digits, and
/// before them groups of two digits, separated by commas (1,00,00,000).
pub open spec fn indian_digits(n: nat) -> Seq<char> {
    if n < 1000 {
        decimal_digits(n)
    } else {
        paired_digits(n / 1000) + ","@ + zero_padded(n % 1000, 3)
    }
}

fn paired_digits_string(n: u64) -> (s: String)
    ensures
        s@ == paired_digits(n as nat),
    decreases n,
{
    if n < 100 {
        decimal_string(n)
    } else {
        let mut s = paired_digits_string(n / 100);
        s.append(",");
        let tail = zero_padded_string(n % 100, 2);
        s.append(tail.as_str());
        s
    }
}

/// `n` written in the Indian numbering system (see `indian_digits`).
pub fn indian_digits_string(n: u64) -> (s: String)
    ensures
        s@ == indian_digits(n as nat),
{
    if n < 1000 {
        decimal_string(n)
    } else {
        let mut s = paired_digits_string(n / 1000);
        s.append(",");
        let tail = zero_padded_string(n % 1000, 3);
        s.append(tail.as_str());
        s
    }
}

/// An amount of `whole` rupees and `paisa` paisa in the Indian numbering
/// system (see `indian_digits`), a point and two digits of paisa, with a minus
/// sign when `negative`.
pub open spec fn indian_amount_text(negative: bool, whole: nat, paisa: nat) -> Seq<char> {
    let sign = if negative { "-"@ } else { Seq::<char>::empty() };
    sign + indian_digits(whole) + "."@ + zero_padded(paisa, 2)
}

/// An amount in the Indian numbering system (see `indian_amount_text`), such
/// as `1,00,00,00,000.00`.
pub fn indian_amount_string(negative: bool, whole: u64, paisa: u64) -> (s: String)
    ensures
        s@ == indian_amount_text(negative, whole as nat, paisa as nat),
{
    let mut s = if negative {
        String::from_str("-")
    } else {
        String::new()
    };
    let digits = indian_digits_string(whole);
    s.append(digits.as_str());
    s.append(".");
    let cents = zero_padded_string(paisa, 2);
    s.append(cents.as_str());
    proof {
        reveal_strlit("-");
        reveal_strlit(".");
    }
    s
}

} // verus!
