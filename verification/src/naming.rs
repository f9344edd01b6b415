//! Output file naming: page `N` becomes `NNN.svg` and `NNN.jpg`, the page
//! number printed in decimal and zero-padded to at least three digits.

use vstd::prelude::*;
use vstd::string::StringExecFns;
use vstd::arithmetic::div_mod::lemma_small_mod;

verus! {

/// The decimal digit character for `d` in `0..10`.
pub open spec fn digit_char(d: int) -> char {
    if d == 0 {
        '0'
    } else if d == 1 {
        '1'
    } else if d == 2 {
        '2'
    } else if d == 3 {
        '3'
    } else if d == 4 {
        '4'
    } else if d == 5 {
        '5'
    } else if d == 6 {
        '6'
    } else if d == 7 {
        '7'
    } else if d == 8 {
        '8'
    } else {
        '9'
    }
}

/// The decimal digits of `n`, most significant first, no padding.
pub open spec fn dec_digits(n: int) -> Seq<char>
    decreases n,
{
    if n < 10 {
        seq![digit_char(n)]
    } else {
        dec_digits(n / 10) + seq![digit_char(n % 10)]
    }
}

/// The decimal digits of `n`, zero-padded to at least three.
pub open spec fn padded3(n: int) -> Seq<char> {
    if n < 10 {
        seq!['0', '0'] + dec_digits(n)
    } else if n < 100 {
        seq!['0'] + dec_digits(n)
    } else {
        dec_digits(n)
    }
}

/// The file name for page `n` with extension `ext`: `padded3(n) + "." + ext`.
pub open spec fn page_file_text(n: int, ext: Seq<char>) -> Seq<char> {
    padded3(n) + seq!['.'] + ext
}

fn digit_str(d: u32) -> (r: &'static str)
    requires
        d < 10,
    ensures
        r@ == seq![digit_char(d as int)],
{
    let r: &'static str = match d {
        0 => "0",
        1 => "1",
        2 => "2",
        3 => "3",
        4 => "4",
        5 => "5",
        6 => "6",
        7 => "7",
        8 => "8",
        _ => "9",
    };
    proof {
        reveal_strlit("0");
        reveal_strlit("1");
        reveal_strlit("2");
        reveal_strlit("3");
        reveal_strlit("4");
        reveal_strlit("5");
        reveal_strlit("6");
        reveal_strlit("7");
        reveal_strlit("8");
        reveal_strlit("9");
        assert(r@ =~= seq![digit_char(d as int)]);
    }
    r
}

fn push_decimal(s: &mut String, n: u32)
    ensures
        final(s)@ == old(s)@ + dec_digits(n as int),
    decreases n,
{
    if n >= 10 {
        push_decimal(s, n / 10);
    }
    let d: u32 = n % 10;
    proof {
        if n < 10 {
            lemma_small_mod(n as nat, 10);
        }
    }
    s.append(digit_str(d));
    proof {
        assert(s@ =~= old(s)@ + dec_digits(n as int));
    }
}

/// The output file name for 1-based page number `number` and extension
/// `ext` (without the dot): at least three decimal digits, zero-padded,
/// then a dot, then the extension.
pub fn page_filename(number: u32, ext: &str) -> (r: String)
    ensures
        r@ == page_file_text(number as int, ext@),
{
    let mut s = String::new();
    if number < 10 {
        s.append("00");
    } else if number < 100 {
        s.append("0");
    }
    push_decimal(&mut s, number);
    s.append(".");
    s.append(ext);
    proof {
        reveal_strlit("00");
        reveal_strlit("0");
        reveal_strlit(".");
        assert(s@ =~= page_file_text(number as int, ext@));
    }
    s
}

} // verus!
