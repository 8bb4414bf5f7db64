//! Verified text formatting for the disassembler: decimal and hexadecimal
//! renderings of machine integers, with right-justified field padding.

use vstd::prelude::*;
use vstd::string::StringExecFns;

verus! {

/// The character for the decimal digit `d`.
pub open spec fn digit_char(d: int) -> char {
    if d == 0 {
        '0'
    } else if d == 1 {
        '1'
    } else if d == 2 {
        '2'
    } else if d == 3 {
        '3'
    } else if d == 4 {
        '4'
    } else if d == 5 {
        '5'
    } else if d == 6 {
        '6'
    } else if d == 7 {
        '7'
    } else if d == 8 {
        '8'
    } else {
        '9'
    }
}

/// The decimal digits of `n`, most significant first.
pub open spec fn dec_seq(n: int) -> Seq<char>
    decreases n,
{
    if n < 10 {
        seq![digit_char(n)]
    } else {
        dec_seq(n / 10).push(digit_char(n % 10))
    }
}

/// The number of decimal digits of `n`.
pub open spec fn dec_len(n: int) -> int
    decreases n,
{
    if n < 10 {
        1
    } else {
        1 + dec_len(n / 10)
    }
}

/// The character for the hexadecimal digit `d`, lower case.
pub open spec fn hex_digit_char(d: int) -> char {
    if d < 10 {
        digit_char(d)
    } else if d == 10 {
        'a'
    } else if d == 11 {
        'b'
    } else if d == 12 {
        'c'
    } else if d == 13 {
        'd'
    } else if d == 14 {
        'e'
    } else {
        'f'
    }
}

/// The last `k` hexadecimal digits of `n`, most significant first.
pub open spec fn hex_seq(n: int, k: nat) -> Seq<char>
    decreases k,
{
    if k == 0 {
        Seq::empty()
    } else {
        hex_seq(n / 16, (k - 1) as nat).push(hex_digit_char(n % 16))
    }
}

/// `k` copies of `c`; empty when `k` is not positive.
pub open spec fn fill(c: char, k: int) -> Seq<char> {
    Seq::new(if k < 0 { 0 } else { k as nat }, |i: int| c)
}

/// Appends the decimal digits of `n`.
pub fn push_dec(s: &mut String, n: u64)
    ensures
        final(s)@ == old(s)@ + dec_seq(n as int),
    decreases n,
{
    if n >= 10 {
        push_dec(s, n / 10);
    }
    let d = n % 10;
    let ds: &str = if d == 0 {
        "0"
    } else if d == 1 {
        "1"
    } else if d == 2 {
        "2"
    } else if d == 3 {
        "3"
    } else if d == 4 {
        "4"
    } else if d == 5 {
        "5"
    } else if d == 6 {
        "6"
    } else if d == 7 {
        "7"
    } else if d == 8 {
        "8"
    } else {
        "9"
    };
    s.append(ds);
    proof {
        reveal_strlit("0");
        reveal_strlit("1");
        reveal_strlit("2");
        reveal_strlit("3");
        reveal_strlit("4");
        reveal_strlit("5");
        reveal_strlit("6");
        reveal_strlit("7");
        reveal_strlit("8");
        reveal_strlit("9");
        assert(ds@ =~= seq![digit_char((n % 10) as int)]);
        assert(s@ =~= old(s)@ + dec_seq(n as int));
    }
}

/// Every number has at least one digit.
pub proof fn lemma_dec_len_pos(n: int)
    ensures
        dec_len(n) >= 1,
    decreases n,
{
    if n >= 10 {
        lemma_dec_len_pos(n / 10);
    }
}

/// How wide the four-column fields pad: a number of up to three digits gets
/// the difference to four, a longer one stands unpadded.
pub proof fn lemma_dec_len4(n: int)
    requires
        n >= 0,
    ensures
        n < 10 ==> dec_len(n) == 1,
        10 <= n < 100 ==> dec_len(n) == 2,
        100 <= n < 1000 ==> dec_len(n) == 3,
        n >= 1000 ==> dec_len(n) >= 4,
{
    reveal_with_fuel(dec_len, 5);
    if n >= 1000 {
        let a = n / 10;
        assert(a >= 100);
        assert(a / 10 >= 10);
        lemma_dec_len_pos(a / 10 / 10);
        assert(dec_len(a / 10) == 1 + dec_len(a / 10 / 10));
        assert(dec_len(n) == 2 + dec_len(a / 10));
    }
}

/// Appends `n` right-justified in a four-column field, padded with zeroes or
/// with spaces; a number of more than four digits stands unpadded.
pub fn push_dec4(s: &mut String, n: u64, zero: bool)
    ensures
        final(s)@ == old(s)@ + fill(if zero { '0' } else { ' ' }, 4 - dec_len(n as int)) + dec_seq(
            n as int,
        ),
{
    let f: &str = if zero {
        "0"
    } else {
        " "
    };
    let ghost fc: char = if zero { '0' } else { ' ' };
    proof {
        lemma_dec_len4(n as int);
        reveal_strlit("0");
        reveal_strlit(" ");
        assert(f@ =~= seq![fc]);
    }
    if n < 10 {
        s.append(f);
        s.append(f);
        s.append(f);
        proof {
            assert(s@ =~= old(s)@ + fill(fc, 3));
        }
    } else if n < 100 {
        s.append(f);
        s.append(f);
        proof {
            assert(s@ =~= old(s)@ + fill(fc, 2));
        }
    } else if n < 1000 {
        s.append(f);
        proof {
            assert(s@ =~= old(s)@ + fill(fc, 1));
        }
    } else {
        proof {
            assert(s@ =~= old(s)@ + fill(fc, 4 - dec_len(n as int)));
        }
    }
    push_dec(s, n);
    proof {
        assert(s@ =~= old(s)@ + fill(fc, 4 - dec_len(n as int)) + dec_seq(n as int));
    }
}

/// Appends the last `k` hexadecimal digits of `n`, most significant first.
pub fn push_hex(s: &mut String, n: u64, k: usize)
    ensures
        final(s)@ == old(s)@ + hex_seq(n as int, k as nat),
    decreases k,
{
    if k == 0 {
        proof {
            assert(s@ =~= old(s)@ + hex_seq(n as int, 0));
        }
        return ;
    }
    push_hex(s, n / 16, k - 1);
    let d = n % 16;
    let ds: &str = if d == 0 {
        "0"
    } else if d == 1 {
        "1"
    } else if d == 2 {
        "2"
    } else if d == 3 {
        "3"
    } else if d == 4 {
        "4"
    } else if d == 5 {
        "5"
    } else if d == 6 {
        "6"
    } else if d == 7 {
        "7"
    } else if d == 8 {
        "8"
    } else if d == 9 {
        "9"
    } else if d == 10 {
        "a"
    } else if d == 11 {
        "b"
    } else if d == 12 {
        "c"
    } else if d == 13 {
        "d"
    } else if d == 14 {
        "e"
    } else {
        "f"
    };
    s.append(ds);
    proof {
        reveal_strlit("0");
        reveal_strlit("1");
        reveal_strlit("2");
        reveal_strlit("3");
        reveal_strlit("4");
        reveal_strlit("5");
        reveal_strlit("6");
        reveal_strlit("7");
        reveal_strlit("8");
        reveal_strlit("9");
        reveal_strlit("a");
        reveal_strlit("b");
        reveal_strlit("c");
        reveal_strlit("d");
        reveal_strlit("e");
        reveal_strlit("f");
        assert(ds@ =~= seq![hex_digit_char((n % 16) as int)]);
        assert(s@ =~= old(s)@ + hex_seq(n as int, k as nat));
    }
}

} // verus!
