use vstd::prelude::*;
use vstd::string::*;

verus! {

/// The value of `c` as a digit in any radix up to 36: `0`-`9`, then letters
/// of either case from 10 on. Any other character gets 36, a digit of no radix.
pub open spec fn digit_value(c: char) -> nat {
    let u = c as u32;
    if 48 <= u <= 57 {
        (u - 48) as nat
    } else if 97 <= u <= 122 {
        (u - 97 + 10) as nat
    } else if 65 <= u <= 90 {
        (u - 65 + 10) as nat
    } else {
        36
    }
}

/// The number that the digits `d` spell in radix `radix`, most significant first.
pub open spec fn digits_number(d: Seq<char>, radix: nat) -> nat
    decreases d.len(),
{
    if d.len() == 0 {
        0
    } else {
        digits_number(d.drop_last(), radix) * radix + digit_value(d.last())
    }
}

/// Whether every character of `d` is a digit of `radix`.
pub open spec fn all_digits(d: Seq<char>, radix: nat) -> bool {
    forall|i: int| 0 <= i < d.len() ==> digit_value(#[trigger] d[i]) < radix
}

/// Reads an unsigned byte in `radix`: an optional `+`, then one or more digits
/// of the radix, with a value below 256.
pub open spec fn byte_in_radix(s: Seq<char>, radix: nat) -> Option<u8> {
    let d = if s.len() > 0 && s[0] == '+' { s.skip(1) } else { s };
    if d.len() > 0 && all_digits(d, radix) && digits_number(d, radix) < 256 {
        Some(digits_number(d, radix) as u8)
    } else {
        None
    }
}

/// The age that a stored field holds: hexadecimal after a `0x` prefix,
/// decimal otherwise.
pub open spec fn age_of_text(s: Seq<char>) -> Option<u8> {
    if s.len() >= 2 && s[0] == '0' && s[1] == 'x' {
        byte_in_radix(s.skip(2), 16)
    } else {
        byte_in_radix(s, 10)
    }
}

/// The decimal digit for `d` below 10.
pub open spec fn decimal_char(d: nat) -> char {
    seq!['0', '1', '2', '3', '4', '5', '6', '7', '8', '9'][d as int]
}

/// The decimal text of `n`, without sign or leading zeros.
pub open spec fn decimal_text(n: nat) -> Seq<char>
    decreases n,
{
    if n < 10 {
        seq![decimal_char(n)]
    } else {
        decimal_text(n / 10).push(decimal_char(n % 10))
    }
}

proof fn lemma_decimal_char(d: nat)
    requires
        d < 10,
    ensures
        digit_value(decimal_char(d)) == d,
        decimal_char(d) != 'x',
        decimal_char(d) != '+',
{
    if d == 0 {
        assert(decimal_char(0) == '0');
    } else if d == 1 {
        assert(decimal_char(1) == '1');
    } else if d == 2 {
        assert(decimal_char(2) == '2');
    } else if d == 3 {
        assert(decimal_char(3) == '3');
    } else if d == 4 {
        assert(decimal_char(4) == '4');
    } else if d == 5 {
        assert(decimal_char(5) == '5');
    } else if d == 6 {
        assert(decimal_char(6) == '6');
    } else if d == 7 {
        assert(decimal_char(7) == '7');
    } else if d == 8 {
        assert(decimal_char(8) == '8');
    } else {
        assert(decimal_char(9) == '9');
    }
}

proof fn lemma_decimal_text(n: nat)
    ensures
        decimal_text(n).len() > 0,
        forall|i: int|
            0 <= i < decimal_text(n).len() ==> digit_value(#[trigger] decimal_text(n)[i]) < 10
                && decimal_text(n)[i] != 'x' && decimal_text(n)[i] != '+',
        digits_number(decimal_text(n), 10) == n,
    decreases n,
{
    if n < 10 {
        lemma_decimal_char(n);
        assert(decimal_text(n).drop_last() =~= Seq::<char>::empty());
        assert(digits_number(Seq::<char>::empty(), 10) == 0);
        assert(decimal_text(n).last() == decimal_char(n));
    } else {
        lemma_decimal_text(n / 10);
        lemma_decimal_char(n % 10);
        assert(decimal_text(n).drop_last() =~= decimal_text(n / 10));
        assert(decimal_text(n).last() == decimal_char(n % 10));
        assert(n == (n / 10) * 10 + n % 10);
    }
}

/// Writing an age as decimal text and reading it back gives the same age.
pub proof fn lemma_age_round_trip(n: u8)
    ensures
        age_of_text(decimal_text(n as nat)) == Some(n),
{
    lemma_decimal_text(n as nat);
    let t = decimal_text(n as nat);
    assert(t.len() >= 2 ==> t[1] != 'x');
    assert(!(t.len() > 0 && t[0] == '+'));
}

/// The decimal text of a number above 255 is never read as an age: a byte
/// holds every age the store can keep, and nothing larger.
pub proof fn lemma_age_out_of_range(n: nat)
    requires
        n >= 256,
    ensures
        age_of_text(decimal_text(n)) is None,
{
    lemma_decimal_text(n);
    let t = decimal_text(n);
    assert(t.len() >= 2 ==> t[1] != 'x');
    assert(!(t.len() > 0 && t[0] == '+'));
}

/// The decimal digit `d` as a one-character string.
fn digit_str(d: u8) -> (r: &'static str)
    requires
        d < 10,
    ensures
        r@ == seq![decimal_char(d as nat)],
{
    let r = if d == 0 {
        proof {
            reveal_strlit("0");
        }
        "0"
    } else if d == 1 {
        proof {
            reveal_strlit("1");
        }
        "1"
    } else if d == 2 {
        proof {
            reveal_strlit("2");
        }
        "2"
    } else if d == 3 {
        proof {
            reveal_strlit("3");
        }
        "3"
    } else if d == 4 {
        proof {
            reveal_strlit("4");
        }
        "4"
    } else if d == 5 {
        proof {
            reveal_strlit("5");
        }
        "5"
    } else if d == 6 {
        proof {
            reveal_strlit("6");
        }
        "6"
    } else if d == 7 {
        proof {
            reveal_strlit("7");
        }
        "7"
    } else if d == 8 {
        proof {
            reveal_strlit("8");
        }
        "8"
    } else {
        proof {
            reveal_strlit("9");
        }
        "9"
    };
    assert(r@ =~= seq![decimal_char(d as nat)]);
    r
}

/// The decimal text of an age, as the store writes it.
pub(crate) fn age_text(age: u8) -> (r: String)
    ensures
        r@ == decimal_text(age as nat),
{
    let mut r = String::new();
    if age >= 100 {
        r.append(digit_str(age / 100));
    }
    if age >= 10 {
        r.append(digit_str(age / 10 % 10));
    }
    r.append(digit_str(age % 10));
    proof {
        let n = age as nat;
        if n >= 100 {
            assert(decimal_text(n / 100) == seq![decimal_char(n / 100)]);
            assert(decimal_text(n / 10) =~= seq![decimal_char(n / 100)].push(decimal_char(n / 10 % 10)));
        } else if n >= 10 {
            assert(decimal_text(n / 10) == seq![decimal_char(n / 10)]);
        }
        assert(r@ =~= decimal_text(n));
    }
    r
}

proof fn lemma_digits_grow(d: Seq<char>, radix: nat, k: int)
    requires
        0 <= k <= d.len(),
        radix > 0,
    ensures
        digits_number(d.take(k), radix) <= digits_number(d, radix),
    decreases d.len() - k,
{
    if k < d.len() {
        lemma_digits_grow(d, radix, k + 1);
        assert(d.take(k + 1).drop_last() =~= d.take(k));
        assert(digits_number(d.take(k), radix) <= digits_number(d.take(k), radix) * radix)
            by (nonlinear_arith)
            requires
                radix > 0,
        ;
    } else {
        assert(d.take(k) =~= d);
    }
}

/// Reads the characters of `s` from `start` on as a byte in `radix`.
fn read_byte(s: &str, start: usize, radix: u32) -> (r: Option<u8>)
    requires
        start <= s@.len(),
        2 <= radix <= 36,
    ensures
        r == byte_in_radix(s@.skip(start as int), radix as nat),
{
    let len = s.unicode_len();
    let ghost t = s@.skip(start as int);
    let mut i = start;
    if i < len && s.get_char(i) == '+' {
        i = i + 1;
    }
    let ghost d = if t.len() > 0 && t[0] == '+' { t.skip(1) } else { t };
    assert(d =~= s@.skip(i as int));
    if i == len {
        return None;
    }
    let ghost b = i as int;
    let mut value: u32 = 0;
    while i < len
        invariant
            0 <= b <= i <= len,
            len == s@.len(),
            d == s@.skip(b),
            d.len() == len - b,
            t == s@.skip(start as int),
            d == (if t.len() > 0 && t[0] == '+' { t.skip(1) } else { t }),
            2 <= radix <= 36,
            value <= 255,
            value == digits_number(d.take(i - b), radix as nat),
            forall|j: int| 0 <= j < i - b ==> digit_value(#[trigger] d[j]) < radix,
        decreases len - i,
    {
        let ghost k = i - b;
        let c = s.get_char(i);
        let u = c as u32;
        let v: u32 = if 48 <= u && u <= 57 {
            u - 48
        } else if 97 <= u && u <= 122 {
            u - 97 + 10
        } else if 65 <= u && u <= 90 {
            u - 65 + 10
        } else {
            36
        };
        assert(s@.skip(b)[k] == s@[b + k]);
        assert(c == d[k]);
        assert(v == digit_value(c));
        if v >= radix {
            return None;
        }
        assert(d.take(k + 1).drop_last() =~= d.take(k));
        assert(value * radix + v <= 255 * 36 + 36) by (nonlinear_arith)
            requires
                value <= 255,
                radix <= 36,
                v < 36,
        ;
        let next = value * radix + v;
        if next > 255 {
            proof {
                lemma_digits_grow(d, radix as nat, k + 1);
            }
            return None;
        }
        value = next;
        i = i + 1;
    }
    assert(d.take(i - b) =~= d);
    Some(value as u8)
}

/// Reads a stored age field as the store's CSV reader reads a `u8`: after a
/// `0x` prefix the rest is hexadecimal, otherwise the whole field is decimal;
/// either may start with `+`. `None` where the field holds no such number.
pub fn parse_age(s: &str) -> (r: Option<u8>)
    ensures
        r == age_of_text(s@),
{
    let len = s.unicode_len();
    if len >= 2 && s.get_char(0) == '0' && s.get_char(1) == 'x' {
        read_byte(s, 2, 16)
    } else {
        assert(s@.skip(0) =~= s@);
        read_byte(s, 0, 10)
    }
}

} // verus!
