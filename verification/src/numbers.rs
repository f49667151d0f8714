use vstd::prelude::*;

verus! {

/// Whether `c` is one of the ASCII digits `0`..`9`.
pub open spec fn is_digit(c: char) -> bool {
    '0' <= c && c <= '9'
}

/// The value of the digit `c`.
pub open spec fn digit_value(c: char) -> nat {
    (c as int - '0' as int) as nat
}

/// Whether `s` consists of ASCII digits only.
pub open spec fn all_digits(s: Seq<char>) -> bool {
    forall|i: int| 0 <= i < s.len() ==> is_digit(#[trigger] s[i])
}

/// The number that the digits `s` write in base ten.
pub open spec fn decimal(s: Seq<char>) -> nat
    decreases s.len(),
{
    if s.len() == 0 {
        0
    } else {
        decimal(s.drop_last()) * 10 + digit_value(s.last())
    }
}

/// `str::parse::<i16>`: an optional sign, then at least one digit, and a
/// value in the range of `i16`.
pub open spec fn parse_i16(s: Seq<char>) -> Option<i16> {
    let signed = s.len() > 0 && (s[0] == '-' || s[0] == '+');
    let d = if signed {
        s.drop_first()
    } else {
        s
    };
    if d.len() == 0 || !all_digits(d) {
        None
    } else if s[0] == '-' {
        if decimal(d) <= 32768 {
            Some((0 - decimal(d)) as i16)
        } else {
            None
        }
    } else if decimal(d) <= 32767 {
        Some(decimal(d) as i16)
    } else {
        None
    }
}

/// The last `width` binary digits of `u`, most significant first.
pub open spec fn binary_digits(u: nat, width: nat) -> Seq<char>
    decreases width,
{
    if width == 0 {
        seq![]
    } else {
        binary_digits(u / 2, (width - 1) as nat).push(if u % 2 == 0 { '0' } else { '1' })
    }
}

/// Whether `s` is `n` binary digits.
pub open spec fn is_bits(s: Seq<char>, n: nat) -> bool {
    s.len() == n && forall|i: int| 0 <= i < n ==> (#[trigger] s[i] == '0' || s[i] == '1')
}

/// `binary_digits(u, width)` is `width` binary digits.
pub proof fn lemma_binary_digits_bits(u: nat, width: nat)
    ensures
        is_bits(binary_digits(u, width), width),
    decreases width,
{
    if width > 0 {
        lemma_binary_digits_bits(u / 2, (width - 1) as nat);
        let p = binary_digits(u / 2, (width - 1) as nat);
        assert(forall|i: int| 0 <= i < p.len() ==> binary_digits(u, width)[i] == p[i]);
    }
}

/// The number that the binary digits `s` write, most significant first.
pub open spec fn binary_value(s: Seq<char>) -> nat
    decreases s.len(),
{
    if s.len() == 0 {
        0
    } else {
        binary_value(s.drop_last()) * 2 + if s.last() == '1' {
            1nat
        } else {
            0nat
        }
    }
}

/// Writing `u` in `width` binary digits and reading them back gives `u`,
/// where `u` fits in `width` digits.
pub proof fn lemma_binary_digits_value(u: nat, width: nat)
    requires
        u < vstd::arithmetic::power2::pow2(width),
    ensures
        binary_value(binary_digits(u, width)) == u,
    decreases width,
{
    if width == 0 {
        vstd::arithmetic::power2::lemma2_to64();
    } else {
        let w1 = (width - 1) as nat;
        vstd::arithmetic::power2::lemma_pow2_unfold(width);
        assert(u / 2 < vstd::arithmetic::power2::pow2(w1));
        lemma_binary_digits_value(u / 2, w1);
        let s = binary_digits(u, width);
        assert(s.drop_last() == binary_digits(u / 2, w1));
    }
}

/// A number from 0 to 32767 is written in sixteen binary digits that
/// start with `0` and read back as the number.
pub proof fn lemma_bits16_value(v: i16)
    requires
        v >= 0,
    ensures
        bits16(v)[0] == '0',
        binary_value(bits16(v)) == v,
{
    vstd::arithmetic::power2::lemma2_to64();
    lemma_binary_digits_value(v as nat, 16);
    lemma_binary_digits_top(v as nat, 16);
}

/// The first of `width` binary digits of a number below half the range is
/// `0`.
proof fn lemma_binary_digits_top(u: nat, width: nat)
    requires
        width > 0,
        u < vstd::arithmetic::power2::pow2((width - 1) as nat),
    ensures
        binary_digits(u, width)[0] == '0',
    decreases width,
{
    if width == 1 {
        vstd::arithmetic::power2::lemma2_to64();
        assert(u == 0);
        assert(binary_digits(u, 1) =~= binary_digits(0, 0).push('0'));
    } else {
        let w1 = (width - 1) as nat;
        vstd::arithmetic::power2::lemma_pow2_unfold(w1);
        lemma_binary_digits_top(u / 2, w1);
        assert(binary_digits(u, width)[0] == binary_digits(u / 2, w1)[0]);
    }
}

/// `format!("{:016b}", v)`: the sixteen bits of `v` in two's complement.
pub open spec fn bits16(v: i16) -> Seq<char> {
    binary_digits((if v < 0 { v + 65536 } else { v as int }) as nat, 16)
}

/// The digits of `n` in base ten, without leading zeros (`0` for zero).
pub open spec fn decimal_digits(n: nat) -> Seq<char>
    decreases n,
{
    if n < 10 {
        seq![(n + '0' as nat) as char]
    } else {
        decimal_digits(n / 10).push(((n % 10) + '0' as nat) as char)
    }
}

/// A prefix of a run of digits writes no larger number than the run.
pub proof fn lemma_decimal_prefix(s: Seq<char>, i: int)
    requires
        0 <= i <= s.len(),
    ensures
        decimal(s.take(i)) <= decimal(s),
    decreases s.len(),
{
    if i < s.len() {
        lemma_decimal_prefix(s.drop_last(), i);
        assert(s.drop_last().take(i) == s.take(i));
        assert(decimal(s.drop_last()) <= decimal(s.drop_last()) * 10);
    } else {
        assert(s.take(i) == s);
    }
}

/// The decimal digits of `n`, read back in base ten, give `n`; they are
/// never empty and hold nothing but digits.
pub proof fn lemma_decimal_digits_read_back(n: nat)
    ensures
        decimal_digits(n).len() > 0,
        all_digits(decimal_digits(n)),
        decimal(decimal_digits(n)) == n,
    decreases n,
{
    let s = decimal_digits(n);
    let d = if n < 10 { n } else { n % 10 };
    assert(((d + '0' as nat) as char) as int == d + '0' as int);
    assert(s.last() == (d + '0' as nat) as char);
    assert(digit_value(s.last()) == d);
    if n < 10 {
        assert(s.drop_last() =~= Seq::<char>::empty());
        assert(decimal(s) == decimal(s.drop_last()) * 10 + digit_value(s.last()));
    } else {
        lemma_decimal_digits_read_back(n / 10);
        let p = decimal_digits(n / 10);
        assert(s.drop_last() =~= p);
        assert(forall|i: int| 0 <= i < p.len() ==> s[i] == p[i]);
        assert(decimal(s) == decimal(p) * 10 + d);
        assert(n == (n / 10) * 10 + n % 10);
    }
}

/// What `push_decimal` writes, `str::parse::<usize>` reads back: for every
/// `n` that fits in `usize`, `parse_usize(decimal_digits(n)) == Some(n)`.
pub proof fn lemma_parse_usize_decimal_digits(n: usize)
    ensures
        parse_usize(decimal_digits(n as nat)) == Some(n),
{
    lemma_decimal_digits_read_back(n as nat);
    let s = decimal_digits(n as nat);
    assert(is_digit(s[0]));
}

/// Parses `s` as `str::parse::<i16>` does.
pub fn parse_i16_chars(s: &[char]) -> (r: Option<i16>)
    ensures
        r == parse_i16(s@),
{
    let n = s.len();
    if n == 0 {
        return None;
    }
    let start: usize = if s[0] == '-' || s[0] == '+' {
        1
    } else {
        0
    };
    let ghost d = if start == 1 {
        s@.drop_first()
    } else {
        s@
    };
    assert(d == s@.subrange(start as int, n as int));
    if start == n {
        return None;
    }
    let mut acc: u32 = 0;
    let mut i: usize = start;
    while i < n
        invariant
            start <= i <= n,
            n == s.len(),
            start <= 1,
            start < n,
            (start == 1) == (s@[0] == '-' || s@[0] == '+'),
            d == s@.subrange(start as int, n as int),
            all_digits(s@.subrange(start as int, i as int)),
            acc == decimal(s@.subrange(start as int, i as int)),
            acc <= 32768,
        decreases n - i,
    {
        let c = s[i];
        if !('0' <= c && c <= '9') {
            assert(!is_digit(d[i - start]));
            return None;
        }
        let next: u32 = acc * 10 + (c as u32 - '0' as u32);
        let ghost pre = s@.subrange(start as int, i + 1);
        assert(pre.drop_last() == s@.subrange(start as int, i as int));
        assert(all_digits(pre));
        assert(decimal(pre) == next);
        if next > 32768 {
            proof {
                if all_digits(d) {
                    assert(d.take(i + 1 - start) == pre);
                    lemma_decimal_prefix(d, i + 1 - start);
                    assert(decimal(d) > 32768);
                }
                assert(s@.drop_first() =~= s@.subrange(1, n as int));
                assert(s@ =~= s@.subrange(0, n as int));
            }
            return None;
        }
        acc = next;
        i = i + 1;
    }
    assert(s@.subrange(start as int, n as int) == d);
    if s[0] == '-' {
        Some((0 - acc as i32) as i16)
    } else if acc <= 32767 {
        Some(acc as i16)
    } else {
        None
    }
}

/// Appends the last `width` binary digits of `u` to `out`.
pub fn push_binary(out: &mut Vec<char>, u: u32, width: u32)
    ensures
        final(out)@ == old(out)@ + binary_digits(u as nat, width as nat),
    decreases width,
{
    if width > 0 {
        push_binary(out, u / 2, width - 1);
        out.push(
            if u % 2 == 0 {
                '0'
            } else {
                '1'
            },
        );
    }
}

/// The sixteen bits of `v`, as `format!("{:016b}", v)` writes them.
pub fn binary16(v: i16) -> (r: Vec<char>)
    ensures
        r@ == bits16(v),
{
    let u: u32 = if v < 0 {
        (v as i32 + 65536) as u32
    } else {
        v as u32
    };
    let mut r: Vec<char> = Vec::new();
    push_binary(&mut r, u, 16);
    assert(r@ =~= bits16(v));
    r
}

/// Appends the decimal digits of `n` to `out`.
pub fn push_decimal(out: &mut Vec<char>, n: usize)
    ensures
        final(out)@ == old(out)@ + decimal_digits(n as nat),
    decreases n,
{
    if n >= 10 {
        push_decimal(out, n / 10);
    }
    let d: u32 = (n % 10) as u32;
    let c = char_of_digit(d);
    out.push(c);
    proof {
        if n < 10 {
            assert(decimal_digits(n as nat) == seq![c]);
        }
    }
}

/// The ASCII digit for `d`.
fn char_of_digit(d: u32) -> (c: char)
    requires
        d < 10,
    ensures
        c == ((d as nat + '0' as nat) as char),
{
    if d == 0 { '0' } else if d == 1 { '1' } else if d == 2 { '2' } else if d == 3 { '3' } else if d
        == 4 { '4' } else if d == 5 { '5' } else if d == 6 { '6' } else if d == 7 { '7' } else if d
        == 8 { '8' } else { '9' }
}


/// `str::parse::<usize>`: an optional `+`, then at least one digit, and a
/// value in the range of `usize`.
pub open spec fn parse_usize(s: Seq<char>) -> Option<usize> {
    let d = if s.len() > 0 && s[0] == '+' {
        s.drop_first()
    } else {
        s
    };
    if d.len() == 0 || !all_digits(d) || decimal(d) > usize::MAX {
        None
    } else {
        Some(decimal(d) as usize)
    }
}

/// Parses `s` as `str::parse::<usize>` does.
pub fn parse_usize_chars(s: &[char]) -> (r: Option<usize>)
    ensures
        r == parse_usize(s@),
{
    let n = s.len();
    let start: usize = if n > 0 && s[0] == '+' {
        1
    } else {
        0
    };
    let ghost d = if start == 1 {
        s@.drop_first()
    } else {
        s@
    };
    assert(d == s@.subrange(start as int, n as int));
    if start == n {
        return None;
    }
    let mut acc: usize = 0;
    let mut i: usize = start;
    while i < n
        invariant
            start <= i <= n,
            n == s.len(),
            start <= 1,
            start < n,
            (start == 1) == (n > 0 && s@[0] == '+'),
            d == s@.subrange(start as int, n as int),
            all_digits(s@.subrange(start as int, i as int)),
            acc == decimal(s@.subrange(start as int, i as int)),
        decreases n - i,
    {
        let c = s[i];
        if !('0' <= c && c <= '9') {
            assert(!is_digit(d[i - start]));
            return None;
        }
        let ghost pre = s@.subrange(start as int, i + 1);
        assert(pre.drop_last() == s@.subrange(start as int, i as int));
        assert(all_digits(pre));
        let dv: usize = (c as u32 - '0' as u32) as usize;
        let next = match acc.checked_mul(10) {
            Some(m) => m.checked_add(dv),
            None => None,
        };
        match next {
            Some(v) => {
                assert(decimal(pre) == v);
                acc = v;
            },
            None => {
                proof {
                    assert(decimal(pre) > usize::MAX);
                    if all_digits(d) {
                        assert(d.take(i + 1 - start) == pre);
                        lemma_decimal_prefix(d, i + 1 - start);
                    }
                    assert(s@.drop_first() =~= s@.subrange(1, n as int));
                    assert(s@ =~= s@.subrange(0, n as int));
                }
                return None;
            },
        }
        i = i + 1;
    }
    assert(s@.subrange(start as int, n as int) == d);
    assert(s@.drop_first() =~= s@.subrange(1, n as int));
    assert(s@ =~= s@.subrange(0, n as int));
    Some(acc)
}

} // verus!
