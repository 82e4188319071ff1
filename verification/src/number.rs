//! Decimal numbers: reading them from text as `u64::from_str` does, and writing them.
use vstd::prelude::*;
use vstd::string::StringExecFns;

verus! {

/// An ASCII decimal digit.
pub open spec fn is_digit(c: char) -> bool {
    '0' <= c <= '9'
}

/// The value of a decimal digit character.
pub open spec fn digit_value(c: char) -> int {
    c as int - '0' as int
}

/// Whether every character of `d` is a decimal digit.
pub open spec fn all_digits(d: Seq<char>) -> bool {
    forall|i: int| 0 <= i < d.len() ==> is_digit(#[trigger] d[i])
}

/// The number that a string of decimal digits denotes (most significant first).
pub open spec fn digits_value(d: Seq<char>) -> int
    decreases d.len(),
{
    if d.len() == 0 {
        0
    } else {
        digits_value(d.drop_last()) * 10 + digit_value(d.last())
    }
}

/// The digits of a number text: the text without one leading `'+'`.
pub open spec fn unsigned_digits(s: Seq<char>) -> Seq<char> {
    if s.len() > 0 && s[0] == '+' {
        s.drop_first()
    } else {
        s
    }
}

/// What `u64::from_str` accepts and gives: one optional `'+'`, then one or more
/// ASCII digits whose value fits in a `u64`.
pub open spec fn parse_u64(s: Seq<char>) -> Option<u64> {
    let d = unsigned_digits(s);
    if d.len() > 0 && all_digits(d) && digits_value(d) <= u64::MAX {
        Some(digits_value(d) as u64)
    } else {
        None
    }
}

/// The number in `s`, or 0 where `s` is no number (`s.parse().unwrap_or(0)`).
pub open spec fn parse_or_zero(s: Seq<char>) -> u64 {
    match parse_u64(s) {
        Some(v) => v,
        None => 0,
    }
}

/// Taking one more digit multiplies the value so far by ten and adds the digit.
pub proof fn lemma_digits_step(d: Seq<char>, k: int)
    requires
        0 <= k < d.len(),
    ensures
        digits_value(d.take(k + 1)) == digits_value(d.take(k)) * 10 + digit_value(d[k]),
{
    let t = d.take(k + 1);
    assert(t.drop_last() =~= d.take(k));
}

/// Reads `chars[lo..hi]` as `u64::from_str` does.
pub fn parse_u64_range(chars: &Vec<char>, lo: usize, hi: usize) -> (res: Option<u64>)
    requires
        lo <= hi <= chars.len(),
    ensures
        res == parse_u64(chars@.subrange(lo as int, hi as int)),
{
    let ghost s = chars@.subrange(lo as int, hi as int);
    let start: usize = if lo < hi && chars[lo] == '+' {
        lo + 1
    } else {
        lo
    };
    let ghost d = chars@.subrange(start as int, hi as int);
    assert(d =~= unsigned_digits(s));
    if start == hi {
        return None;
    }
    let mut value: u64 = 0;
    let mut overflow = false;
    let ghost mut exact: int = 0;
    let mut i = start;
    assert(d.take(0) =~= Seq::<char>::empty());
    while i < hi
        invariant
            lo <= start <= i <= hi <= chars.len(),
            d == chars@.subrange(start as int, hi as int),
            s == chars@.subrange(lo as int, hi as int),
            d == unsigned_digits(s),
            exact == digits_value(d.take(i - start)),
            exact >= 0,
            forall|k: int| 0 <= k < i - start ==> is_digit(#[trigger] d[k]),
            !overflow ==> value == exact,
            overflow ==> exact > u64::MAX,
        decreases hi - i,
    {
        let c = chars[i];
        assert(c == d[i - start]);
        if !('0' <= c && c <= '9') {
            assert(!is_digit(d[i - start]));
            return None;
        }
        let dv = (c as u32 - '0' as u32) as u64;
        proof {
            lemma_digits_step(d, i - start);
            exact = exact * 10 + dv;
        }
        if !overflow {
            if value < 1844674407370955161 || (value == 1844674407370955161 && dv <= 5) {
                value = value * 10 + dv;
            } else {
                overflow = true;
            }
        }
        i += 1;
    }
    assert(d.take(hi - start) =~= d);
    if overflow {
        None
    } else {
        Some(value)
    }
}

/// The character of a decimal digit.
pub open spec fn digit_char(d: int) -> char {
    (d + '0' as int) as char
}

/// The decimal representation of `n`, as `Display` writes it.
pub open spec fn decimal(n: nat) -> Seq<char>
    decreases n,
{
    if n < 10 {
        seq![digit_char(n as int)]
    } else {
        decimal(n / 10).push(digit_char((n % 10) as int))
    }
}

/// The text of one decimal digit.
pub fn digit_text(d: u64) -> (res: &'static str)
    requires
        d < 10,
    ensures
        res@ == seq![digit_char(d as int)],
{
    proof {
        reveal_strlit("0");
        reveal_strlit("1");
        reveal_strlit("2");
        reveal_strlit("3");
        reveal_strlit("4");
        reveal_strlit("5");
        reveal_strlit("6");
        reveal_strlit("7");
        reveal_strlit("8");
        reveal_strlit("9");
    }
    match d {
        0 => "0",
        1 => "1",
        2 => "2",
        3 => "3",
        4 => "4",
        5 => "5",
        6 => "6",
        7 => "7",
        8 => "8",
        _ => "9",
    }
}

/// Appends the decimal representation of `n` to `out`.
pub fn push_decimal(out: &mut String, n: u64)
    ensures
        final(out)@ == old(out)@ + decimal(n as nat),
    decreases n,
{
    if n >= 10 {
        push_decimal(out, n / 10);
    }
    out.append(digit_text(n % 10));
    assert(final(out)@ =~= old(out)@ + decimal(n as nat));
}

/// The decimal representation of `n`.
pub fn decimal_string(n: u64) -> (res: String)
    ensures
        res@ == decimal(n as nat),
{
    let mut s = String::new();
    push_decimal(&mut s, n);
    assert(s@ =~= decimal(n as nat));
    s
}


/// A digit character is a digit and has the value it was made from.
pub proof fn lemma_digit_char(k: int)
    requires
        0 <= k < 10,
    ensures
        is_digit(digit_char(k)),
        digit_value(digit_char(k)) == k,
{
    assert(('0' as int) == 48);
    assert(((k + 48) as char) as int == k + 48);
}

/// Every character of a decimal representation is a digit, and the digits
/// denote the number.
pub proof fn lemma_decimal_digits(n: nat)
    ensures
        decimal(n).len() > 0,
        all_digits(decimal(n)),
        digits_value(decimal(n)) == n,
    decreases n,
{
    lemma_digit_char((n % 10) as int);
    if n >= 10 {
        lemma_decimal_digits(n / 10);
        let d = decimal(n);
        assert(d.drop_last() =~= decimal(n / 10));
        assert(d.last() == digit_char((n % 10) as int));
        assert(digits_value(d) == digits_value(decimal(n / 10)) * 10 + (n % 10));
        assert forall|i: int| 0 <= i < d.len() implies is_digit(#[trigger] d[i]) by {
            if i < d.len() - 1 {
                assert(d[i] == decimal(n / 10)[i]);
            }
        }
    } else {
        let d = decimal(n);
        assert(d == seq![digit_char(n as int)]);
        assert(d.len() == 1);
        assert(d.drop_last() =~= Seq::<char>::empty());
        assert(digits_value(Seq::<char>::empty()) == 0);
        assert(digits_value(d) == digits_value(d.drop_last()) * 10 + digit_value(d.last()));
    }
}

/// Reading back what was written: the decimal representation of a `u64`
/// reads as that number.
pub proof fn lemma_parse_decimal(n: u64)
    ensures
        parse_u64(decimal(n as nat)) == Some(n),
{
    lemma_decimal_digits(n as nat);
    let d = decimal(n as nat);
    assert(is_digit(d[0]));
    assert(unsigned_digits(d) == d);
}

} // verus!
