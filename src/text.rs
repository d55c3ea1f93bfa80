//! Decimal numerals and the source text of a key.

use crate::lexer::chars_of;
use crate::types::{Key, KeyV};
use vstd::prelude::*;

verus! {

/// The decimal numeral of `n`, most significant digit first, without leading zeros.
pub open spec fn decimal_digits(n: nat) -> Seq<u8>
    decreases n,
{
    if n < 10 {
        seq![(n + 48) as u8]
    } else {
        decimal_digits(n / 10).push((n % 10 + 48) as u8)
    }
}

/// The source text of a key: `FN<n>` for a functional key, the name otherwise.
pub open spec fn key_text(k: KeyV) -> Seq<char> {
    match k {
        KeyV::Fx(n) => seq!['F', 'N'] + chars_of(decimal_digits(n as nat)),
        KeyV::Named(s) => s,
    }
}

/// The one-character string of a decimal digit.
fn digit_str(d: u8) -> (r: &'static str)
    requires
        d < 10,
    ensures
        r@ == seq![(d + 48) as char],
{
    proof {
        reveal_strlit("0");
        reveal_strlit("1");
        reveal_strlit("2");
        reveal_strlit("3");
        reveal_strlit("4");
        reveal_strlit("5");
        reveal_strlit("6");
        reveal_strlit("7");
        reveal_strlit("8");
        reveal_strlit("9");
    }
    match d {
        0 => "0",
        1 => "1",
        2 => "2",
        3 => "3",
        4 => "4",
        5 => "5",
        6 => "6",
        7 => "7",
        8 => "8",
        _ => "9",
    }
}

/// Appends the decimal numeral of `n` to `out`.
pub fn push_decimal(out: &mut String, n: u64)
    ensures
        final(out)@ == old(out)@ + chars_of(decimal_digits(n as nat)),
    decreases n,
{
    if n >= 10 {
        push_decimal(out, n / 10);
    }
    let d = (n % 10) as u8;
    out.append(digit_str(d));
    proof {
        if n >= 10 {
            assert(chars_of(decimal_digits(n as nat)) =~= chars_of(decimal_digits((n / 10) as nat))
                + seq![(d + 48) as char]);
        } else {
            assert(chars_of(decimal_digits(n as nat)) =~= seq![(d + 48) as char]);
        }
    }
}

/// The decimal numeral of `n`.
pub fn decimal_string(n: u64) -> (r: String)
    ensures
        r@ == chars_of(decimal_digits(n as nat)),
{
    let mut out = String::new();
    push_decimal(&mut out, n);
    proof {
        assert(Seq::<char>::empty() + chars_of(decimal_digits(n as nat)) =~= chars_of(
            decimal_digits(n as nat),
        ));
    }
    out
}

impl Key {
    /// The key as it is written in a keymap source.
    pub fn text(&self) -> (r: String)
        ensures
            r@ == key_text(self@),
    {
        match self {
            Key::Fx(n) => {
                let mut out = String::from_str("FN");
                proof {
                    reveal_strlit("FN");
                }
                push_decimal(&mut out, *n);
                out
            },
            Key::Key(name) => name.clone(),
        }
    }
}

} // verus!
