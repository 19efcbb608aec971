//! Text building blocks: decimal numerals and joining.
use vstd::prelude::*;
use vstd::string::*;

verus! {

/// The character that writes the decimal digit `d`.
pub open spec fn digit_char(d: nat) -> char {
    seq!['0', '1', '2', '3', '4', '5', '6', '7', '8', '9'][d as int]
}

/// The decimal numeral of `n`, without sign or leading zeros.
pub open spec fn decimal(n: nat) -> Seq<char>
    decreases n,
{
    if n < 10 {
        seq![digit_char(n)]
    } else {
        decimal(n / 10).push(digit_char(n % 10))
    }
}

/// `c` is one of the characters `0` to `9`.
pub open spec fn is_digit(c: char) -> bool {
    '0' <= c && c <= '9'
}

/// The number that a string of decimal digits writes, the last digit the units.
pub open spec fn numeral_value(s: Seq<char>) -> nat
    decreases s.len(),
{
    if s.len() == 0 {
        0
    } else {
        10 * numeral_value(s.drop_last()) + ((s.last() as u32) - ('0' as u32)) as nat
    }
}

proof fn lemma_digit_char(d: nat)
    requires
        d < 10,
    ensures
        is_digit(digit_char(d)),
        (digit_char(d) as u32) - ('0' as u32) == d,
{
    let t = seq!['0', '1', '2', '3', '4', '5', '6', '7', '8', '9'];
    assert(digit_char(d) == t[d as int]);
    if d == 0 { assert(t[0] == '0'); }
    else if d == 1 { assert(t[1] == '1'); }
    else if d == 2 { assert(t[2] == '2'); }
    else if d == 3 { assert(t[3] == '3'); }
    else if d == 4 { assert(t[4] == '4'); }
    else if d == 5 { assert(t[5] == '5'); }
    else if d == 6 { assert(t[6] == '6'); }
    else if d == 7 { assert(t[7] == '7'); }
    else if d == 8 { assert(t[8] == '8'); }
    else { assert(t[9] == '9'); }
}

/// `decimal(n)` is the usual base-ten numeral of `n`: it holds only digits, reads back as
/// `n`, and starts with no `0` unless it is `0` itself.
pub proof fn law_decimal_numeral(n: nat)
    ensures
        forall|i: int| 0 <= i < decimal(n).len() ==> is_digit(#[trigger] decimal(n)[i]),
        numeral_value(decimal(n)) == n,
        decimal(n).len() > 0,
        decimal(n)[0] == '0' <==> n == 0,
    decreases n,
{
    if n < 10 {
        lemma_digit_char(n);
        let s = decimal(n);
        assert(s.drop_last() =~= Seq::<char>::empty());
        assert(numeral_value(Seq::<char>::empty()) == 0);
        assert(numeral_value(s) == 10 * numeral_value(s.drop_last()) + ((s.last() as u32) - ('0' as u32)) as nat);
        if n != 0 {
            assert((digit_char(n) as u32) != ('0' as u32));
        }
    } else {
        law_decimal_numeral(n / 10);
        lemma_digit_char(n % 10);
        let s = decimal(n);
        let h = decimal(n / 10);
        assert(s.drop_last() =~= h);
        assert(s.last() == digit_char(n % 10));
        assert(n == 10 * (n / 10) + n % 10) by (nonlinear_arith);
        assert(numeral_value(s) == 10 * numeral_value(h) + ((s.last() as u32) - ('0' as u32)) as nat);
        assert forall|i: int| 0 <= i < s.len() implies is_digit(#[trigger] s[i]) by {
            if i < h.len() {
                assert(s[i] == h[i]);
            }
        }
        assert(s[0] == h[0]);
    }
}

/// Appends one character to a string with `String::push`; the contract claims that the
/// text afterwards is the text before followed by `c`.
#[verifier::external_body]
pub(crate) fn push_char(s: &mut String, c: char)
    ensures
        final(s)@ == old(s)@.push(c),
{
    s.push(c);
}

fn digit(d: usize) -> (c: char)
    requires
        d < 10,
    ensures
        c == digit_char(d as nat),
{
    match d {
        0 => '0',
        1 => '1',
        2 => '2',
        3 => '3',
        4 => '4',
        5 => '5',
        6 => '6',
        7 => '7',
        8 => '8',
        _ => '9',
    }
}

/// Writes `n` in decimal.
pub fn decimal_string(n: usize) -> (s: String)
    ensures
        s@ == decimal(n as nat),
    decreases n,
{
    if n < 10 {
        let mut s = String::new();
        push_char(&mut s, digit(n));
        s
    } else {
        let mut s = decimal_string(n / 10);
        push_char(&mut s, digit(n % 10));
        s
    }
}


/// `parts` written one after the other with `sep` between neighbours.
pub open spec fn joined(parts: Seq<Seq<char>>, sep: Seq<char>) -> Seq<char>
    decreases parts.len(),
{
    if parts.len() == 0 {
        Seq::empty()
    } else if parts.len() == 1 {
        parts[0]
    } else {
        joined(parts.drop_last(), sep) + sep + parts.last()
    }
}

/// Joining one more part adds the separator and that part.
pub proof fn lemma_joined_step(parts: Seq<Seq<char>>, sep: Seq<char>, i: int)
    requires
        0 <= i < parts.len(),
    ensures
        joined(parts.take(i + 1), sep) == if i == 0 {
            parts[0]
        } else {
            joined(parts.take(i), sep) + sep + parts[i]
        },
{
    assert(parts.take(i + 1).drop_last() =~= parts.take(i));
}

/// The views of a slice of string slices.
pub open spec fn str_views(parts: Seq<&str>) -> Seq<Seq<char>> {
    parts.map_values(|p: &str| p@)
}

/// Joins string slices with a separator (`[&str]::join`).
pub fn join_strs(parts: &[&str], sep: &str) -> (s: String)
    ensures
        s@ == joined(str_views(parts@), sep@),
{
    let mut s = String::new();
    let ghost views = str_views(parts@);
    let mut i: usize = 0;
    while i < parts.len()
        invariant
            i <= parts@.len(),
            views == str_views(parts@),
            s@ == joined(views.take(i as int), sep@),
        decreases parts@.len() - i,
    {
        proof {
            lemma_joined_step(views, sep@, i as int);
        }
        if i > 0 {
            s.append(sep);
        }
        s.append(parts[i]);
        i = i + 1;
    }
    assert(views.take(parts@.len() as int) =~= views);
    s
}

} // verus!
