//! Number rendering for the reports: decimal integers, byte counts and
//! nanosecond durations with a scaled unit and one or two decimal
//! places.  All scaling is integer arithmetic, rounding half up.

use vstd::prelude::*;

verus! {

/// The decimal digit character of `d`.
pub open spec fn spec_digit(d: nat) -> char {
    if d == 0 {
        '0'
    } else if d == 1 {
        '1'
    } else if d == 2 {
        '2'
    } else if d == 3 {
        '3'
    } else if d == 4 {
        '4'
    } else if d == 5 {
        '5'
    } else if d == 6 {
        '6'
    } else if d == 7 {
        '7'
    } else if d == 8 {
        '8'
    } else {
        '9'
    }
}

/// The decimal digits of `n`, most significant first.
pub open spec fn spec_dec(n: nat) -> Seq<char>
    decreases n,
{
    if n < 10 {
        seq![spec_digit(n)]
    } else {
        spec_dec(n / 10).push(spec_digit(n % 10))
    }
}

/// `t` tenths rendered as a number with one decimal place.
pub open spec fn spec_tenths(t: nat) -> Seq<char> {
    spec_dec(t / 10) + "."@ + seq![spec_digit(t % 10)]
}

/// `h` hundredths rendered as a number with two decimal places.
pub open spec fn spec_hundredths(h: nat) -> Seq<char> {
    spec_dec(h / 100) + "."@ + seq![spec_digit(h / 10 % 10), spec_digit(h % 10)]
}

/// A byte count with a scaled binary unit and, above bytes, one decimal
/// place, rounding half up.
pub open spec fn spec_format_bytes(bytes: u64) -> Seq<char> {
    if bytes < 1024 {
        spec_dec(bytes as nat) + "B"@
    } else if bytes < 1048576 {
        spec_tenths(((bytes * 10 + 512) / 1024) as nat) + "KB"@
    } else if bytes < 1073741824 {
        spec_tenths(((bytes * 10 + 524288) / 1048576) as nat) + "MB"@
    } else {
        spec_tenths(
            ((bytes / 1073741824) * 10 + (bytes % 1073741824 * 10 + 536870912) / 1073741824) as nat,
        ) + "GB"@
    }
}

/// A duration in nanoseconds with a scaled unit: plain below a
/// microsecond, one decimal place up to seconds, two decimal places of
/// seconds above, rounding half up.
pub open spec fn spec_format_time(nanos: u64) -> Seq<char> {
    if nanos < 1000 {
        spec_dec(nanos as nat) + "ns"@
    } else if nanos < 1000000 {
        spec_tenths(((nanos + 50) / 100) as nat) + "us"@
    } else if nanos < 1000000000 {
        spec_tenths(((nanos + 50000) / 100000) as nat) + "ms"@
    } else {
        spec_hundredths(
            (nanos / 10000000 + if nanos % 10000000 >= 5000000 {
                1int
            } else {
                0int
            }) as nat,
        ) + "s"@
    }
}

/// The digit character of `d`.
fn digit_str(d: u64) -> (r: &'static str)
    requires
        d < 10,
    ensures
        r@ == seq![spec_digit(d as nat)],
{
    proof {
        reveal_strlit("0");
        reveal_strlit("1");
        reveal_strlit("2");
        reveal_strlit("3");
        reveal_strlit("4");
        reveal_strlit("5");
        reveal_strlit("6");
        reveal_strlit("7");
        reveal_strlit("8");
        reveal_strlit("9");
    }
    let r: &'static str = if d == 0 {
        "0"
    } else if d == 1 {
        "1"
    } else if d == 2 {
        "2"
    } else if d == 3 {
        "3"
    } else if d == 4 {
        "4"
    } else if d == 5 {
        "5"
    } else if d == 6 {
        "6"
    } else if d == 7 {
        "7"
    } else if d == 8 {
        "8"
    } else {
        "9"
    };
    proof {
        assert(r@ =~= seq![spec_digit(d as nat)]);
    }
    r
}

/// `n` in decimal.
pub fn u64_to_dec(n: u64) -> (r: String)
    ensures
        r@ == spec_dec(n as nat),
    decreases n,
{
    if n < 10 {
        String::from_str(digit_str(n))
    } else {
        let mut s = u64_to_dec(n / 10);
        s.append(digit_str(n % 10));
        proof {
            assert(s@ =~= spec_dec(n as nat));
        }
        s
    }
}

/// `t` tenths with one decimal place.
fn tenths_to_string(t: u64) -> (r: String)
    ensures
        r@ == spec_tenths(t as nat),
{
    let mut s = u64_to_dec(t / 10);
    s.append(".");
    s.append(digit_str(t % 10));
    proof {
        reveal_strlit(".");
        assert(s@ =~= spec_tenths(t as nat));
    }
    s
}

/// `h` hundredths with two decimal places.
fn hundredths_to_string(h: u64) -> (r: String)
    ensures
        r@ == spec_hundredths(h as nat),
{
    let mut s = u64_to_dec(h / 100);
    s.append(".");
    s.append(digit_str(h / 10 % 10));
    s.append(digit_str(h % 10));
    proof {
        reveal_strlit(".");
        assert(s@ =~= spec_hundredths(h as nat));
    }
    s
}

/// Human-readable byte count (`512B`, `1.5KB`, `2.0MB`, ...).
pub fn format_bytes(bytes: u64) -> (r: String)
    ensures
        r@ == spec_format_bytes(bytes),
{
    if bytes < 1024 {
        let mut s = u64_to_dec(bytes);
        s.append("B");
        proof {
            assert(s@ =~= spec_format_bytes(bytes));
        }
        s
    } else if bytes < 1048576 {
        let mut s = tenths_to_string((bytes * 10 + 512) / 1024);
        s.append("KB");
        proof {
            assert(s@ =~= spec_format_bytes(bytes));
        }
        s
    } else if bytes < 1073741824 {
        let mut s = tenths_to_string((bytes * 10 + 524288) / 1048576);
        s.append("MB");
        proof {
            assert(s@ =~= spec_format_bytes(bytes));
        }
        s
    } else {
        let whole = bytes / 1073741824;
        let rem = bytes % 1073741824;
        let mut s = tenths_to_string(whole * 10 + (rem * 10 + 536870912) / 1073741824);
        s.append("GB");
        proof {
            assert(s@ =~= spec_format_bytes(bytes));
        }
        s
    }
}

/// Human-readable duration (`640ns`, `1.5us`, `2.0ms`, `1.25s`).
pub fn format_time(nanos: u64) -> (r: String)
    ensures
        r@ == spec_format_time(nanos),
{
    if nanos < 1000 {
        let mut s = u64_to_dec(nanos);
        s.append("ns");
        proof {
            assert(s@ =~= spec_format_time(nanos));
        }
        s
    } else if nanos < 1000000 {
        let mut s = tenths_to_string((nanos + 50) / 100);
        s.append("us");
        proof {
            assert(s@ =~= spec_format_time(nanos));
        }
        s
    } else if nanos < 1000000000 {
        let mut s = tenths_to_string((nanos + 50000) / 100000);
        s.append("ms");
        proof {
            assert(s@ =~= spec_format_time(nanos));
        }
        s
    } else {
        let whole = nanos / 10000000;
        let rounded = if nanos % 10000000 >= 5000000 {
            whole + 1
        } else {
            whole
        };
        let mut s = hundredths_to_string(rounded);
        s.append("s");
        proof {
            assert(s@ =~= spec_format_time(nanos));
        }
        s
    }
}

} // verus!
