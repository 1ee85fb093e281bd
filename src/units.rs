//! Rendering of fixed-point quantities for reports.
use vstd::prelude::*;
use vstd::string::StringExecFns;
use crate::text::{decimal, push_decimal, push_two_digits};

verus! {

/// `--`, the text for a missing value.
pub open spec fn missing_text() -> Seq<char> {
    "--"@
}

/// Watts with two decimals (rounded to nearest, halves up) for `mw`
/// milliwatts: `15.50W`.
pub open spec fn power_text(mw: int) -> Seq<char> {
    let centi = (mw + 5) / 10;
    decimal((centi / 100) as nat) + seq!['.'] + (if centi % 100 < 10 {
        seq!['0']
    } else {
        Seq::empty()
    }) + decimal((centi % 100) as nat) + seq!['W']
}

/// Percent with one decimal (rounded to nearest, halves up) for `bp`
/// hundredths: `75.5%`.
pub open spec fn percent_text(bp: int) -> Seq<char> {
    let tenths = (bp + 5) / 10;
    decimal((tenths / 10) as nat) + seq!['.'] + decimal((tenths % 10) as nat) + seq!['%']
}

/// `(x + 5) / 10` computed without going past `x`'s type.
fn round_tenth(x: u128) -> (r: u128)
    ensures
        r as int == (x as int + 5) / 10,
{
    let q = x / 10;
    let rem = x % 10;
    proof {
        vstd::arithmetic::div_mod::lemma_fundamental_div_mod(x as int, 10);
        if rem >= 5 {
            vstd::arithmetic::div_mod::lemma_fundamental_div_mod_converse_div(
                x as int + 5,
                10,
                q as int + 1,
                rem as int - 5,
            );
        } else {
            vstd::arithmetic::div_mod::lemma_fundamental_div_mod_converse_div(
                x as int + 5,
                10,
                q as int,
                rem as int + 5,
            );
        }
    }
    if rem >= 5 {
        q + 1
    } else {
        q
    }
}

/// Renders a power in milliwatts as watts with two decimals, or `--`.
pub fn format_power(value: Option<u128>) -> (r: String)
    ensures
        value is None ==> r@ == missing_text(),
        value matches Some(mw) ==> r@ == power_text(mw as int),
{
    match value {
        None => {
            proof {
                reveal_strlit("--");
            }
            String::from_str("--")
        },
        Some(mw) => {
            let centi = round_tenth(mw);
            let mut out = String::new();
            push_decimal(&mut out, centi / 100);
            out.append(".");
            push_two_digits(&mut out, centi % 100);
            out.append("W");
            proof {
                reveal_strlit(".");
                reveal_strlit("W");
                assert(out@ =~= power_text(mw as int));
            }
            out
        },
    }
}

/// Renders a percentage in hundredths of a percent with one decimal, or `--`.
pub fn format_percent(value: Option<u64>) -> (r: String)
    ensures
        value is None ==> r@ == missing_text(),
        value matches Some(bp) ==> r@ == percent_text(bp as int),
{
    match value {
        None => {
            proof {
                reveal_strlit("--");
            }
            String::from_str("--")
        },
        Some(bp) => {
            let mut out = String::new();
            let tenths = round_tenth(bp as u128);
            push_decimal(&mut out, tenths / 10);
            out.append(".");
            push_decimal(&mut out, tenths % 10);
            out.append("%");
            proof {
                reveal_strlit(".");
                reveal_strlit("%");
                assert(out@ =~= percent_text(bp as int));
            }
            out
        },
    }
}

} // verus!
