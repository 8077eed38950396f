//! File sizes written for people: the count in the largest unit that keeps it
//! at least one, rounded down.
use vstd::prelude::*;

verus! {

pub open spec fn digit(d: nat) -> char {
    "0123456789"@[d as int]
}

/// `n` in decimal, without leading zeros.
pub open spec fn decimal(n: nat) -> Seq<char>
    decreases n,
{
    if n < 10 {
        seq![digit(n)]
    } else {
        decimal(n / 10).push(digit(n % 10))
    }
}

/// The name of the unit that is `1024^i` bytes.
pub open spec fn unit_name(i: nat) -> Seq<char> {
    if i == 0 {
        "B"@
    } else if i == 1 {
        "kB"@
    } else if i == 2 {
        "MB"@
    } else if i == 3 {
        "GB"@
    } else if i == 4 {
        "TB"@
    } else if i == 5 {
        "PB"@
    } else if i == 6 {
        "EB"@
    } else if i == 7 {
        "ZB"@
    } else {
        "YB"@
    }
}

/// The largest unit there is, `YB`.
pub open spec fn last_unit() -> nat {
    8
}

/// Divides `count` by 1024 while it is at least 1024 and a larger unit than
/// the `unit`-th is left; gives the count and the unit reached.
pub open spec fn scaled(count: nat, unit: nat) -> (nat, nat)
    decreases last_unit() - unit,
{
    if count >= 1024 && unit < last_unit() {
        scaled(count / 1024, unit + 1)
    } else {
        (count, unit)
    }
}

/// How `bytes` is written: the scaled count, a space and the unit.
pub open spec fn size_text(bytes: nat) -> Seq<char> {
    let (count, unit) = scaled(bytes, 0);
    decimal(count) + " "@ + unit_name(unit)
}

fn digit_str(d: u64) -> (r: &'static str)
    requires
        d < 10,
    ensures
        r@ == seq![digit(d as nat)],
{
    let all = "0123456789";
    proof {
        reveal_strlit("0123456789");
    }
    let r = all.substring_char(d as usize, d as usize + 1);
    assert(r@ =~= seq![digit(d as nat)]);
    r
}

/// `n` written in decimal.
pub fn decimal_string(n: u64) -> (r: String)
    ensures
        r@ == decimal(n as nat),
    decreases n,
{
    let d = digit_str(n % 10);
    if n < 10 {
        String::from_str(d)
    } else {
        let mut s = decimal_string(n / 10);
        s.append(d);
        s
    }
}

fn unit_str(i: usize) -> (r: &'static str)
    ensures
        r@ == unit_name(i as nat),
{
    if i == 0 {
        "B"
    } else if i == 1 {
        "kB"
    } else if i == 2 {
        "MB"
    } else if i == 3 {
        "GB"
    } else if i == 4 {
        "TB"
    } else if i == 5 {
        "PB"
    } else if i == 6 {
        "EB"
    } else if i == 7 {
        "ZB"
    } else {
        "YB"
    }
}

/// Writes a size in bytes for people, such as `1 kB` for 1024 or 2047 bytes.
pub fn format_file_size(bytes: u64) -> (r: String)
    ensures
        r@ == size_text(bytes as nat),
{
    let mut count = bytes;
    let mut unit: usize = 0;
    while count >= 1024 && unit < 8
        invariant
            unit <= 8,
            scaled(count as nat, unit as nat) == scaled(bytes as nat, 0),
        decreases 8 - unit,
    {
        count = count / 1024;
        unit = unit + 1;
    }
    let mut r = decimal_string(count);
    r.append(" ");
    r.append(unit_str(unit));
    r
}

} // verus!
