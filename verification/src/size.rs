//! Human-readable byte counts in binary units.

use vstd::prelude::*;
use vstd::arithmetic::div_mod::{
    lemma_fundamental_div_mod, lemma_fundamental_div_mod_converse, lemma_mod_pos_bound,
};
use crate::text::{push_two_decimals, round_half_even, two_decimals_text};

verus! {

/// The largest unit index: bytes, KB, MB, GB, TB.
pub const LARGEST_UNIT: u8 = 4;

/// The unit a size is shown in: the number of times it can be divided by 1024
/// while it is at least 1024, at most `LARGEST_UNIT` times.
pub open spec fn unit_index(size: nat) -> nat {
    if size < 1024 {
        0
    } else if size < 1024 * 1024 {
        1
    } else if size < 1024 * 1024 * 1024 {
        2
    } else if size < 1024 * 1024 * 1024 * 1024 {
        3
    } else {
        4
    }
}

/// The number of bytes in one unit of the given index.
pub open spec fn unit_bytes(unit: nat) -> nat {
    if unit == 0 {
        1
    } else if unit == 1 {
        1024
    } else if unit == 2 {
        1024 * 1024
    } else if unit == 3 {
        1024 * 1024 * 1024
    } else {
        1024 * 1024 * 1024 * 1024
    }
}

/// The name of the unit of the given index.
pub open spec fn unit_name(unit: nat) -> Seq<char> {
    if unit == 0 {
        seq!['B']
    } else if unit == 1 {
        seq!['K', 'B']
    } else if unit == 2 {
        seq!['M', 'B']
    } else if unit == 3 {
        seq!['G', 'B']
    } else {
        seq!['T', 'B']
    }
}

/// A size in its unit, in hundredths of that unit, rounded to the nearest hundredth.
pub open spec fn size_hundredths(size: nat) -> nat {
    round_half_even(size * 100, unit_bytes(unit_index(size)))
}

/// A count of hundredths written with two decimals, followed by a space and the unit's name.
pub open spec fn fixed_point_text(hundredths: nat, unit: nat) -> Seq<char> {
    two_decimals_text(hundredths) + seq![' '] + unit_name(unit)
}

/// What `pretty_size` writes for a size.
pub open spec fn pretty_size_text(size: nat) -> Seq<char> {
    fixed_point_text(size_hundredths(size), unit_index(size))
}

/// The unit index of a size and the number of bytes in that unit.
pub fn choose_unit(size: u128) -> (r: (u8, u128))
    ensures
        r.0 as nat == unit_index(size as nat),
        r.1 as nat == unit_bytes(unit_index(size as nat)),
        r.0 <= LARGEST_UNIT,
{
    if size < 1024 {
        (0, 1)
    } else if size < 1024 * 1024 {
        (1, 1024)
    } else if size < 1024 * 1024 * 1024 {
        (2, 1024 * 1024)
    } else if size < 1024 * 1024 * 1024 * 1024 {
        (3, 1024 * 1024 * 1024)
    } else {
        (LARGEST_UNIT, 1024 * 1024 * 1024 * 1024)
    }
}

/// A size in hundredths of its unit, which holds `unit_size` bytes, rounded half to even.
fn scale_to_hundredths(size: u128, unit_size: u128) -> (h: u128)
    requires
        unit_size as nat == unit_bytes(unit_index(size as nat)),
    ensures
        h as nat == size_hundredths(size as nat),
{
    let whole: u128 = size / unit_size;
    let rest: u128 = size % unit_size;
    let part: u128 = (rest * 100) / unit_size;
    let left: u128 = (rest * 100) % unit_size;
    proof {
        let d = unit_size as int;
        lemma_fundamental_div_mod(size as int, d);
        lemma_mod_pos_bound(size as int, d);
        lemma_fundamental_div_mod(rest as int * 100, d);
        lemma_mod_pos_bound(rest as int * 100, d);
        assert(part < 100) by (nonlinear_arith)
            requires
                rest as int * 100 == d * (part as int) + left as int,
                0 <= rest < d,
                0 <= left,
                0 <= part,
        ;
        if unit_size < 1024 * 1024 * 1024 * 1024 {
            assert(whole < 1024) by (nonlinear_arith)
                requires
                    size as int == d * (whole as int) + rest as int,
                    size < 1024 * d,
                    0 <= rest,
                    0 < d,
                    0 <= whole,
            ;
        } else {
            assert(size as int == 0x100_0000_0000 * (whole as int) + rest as int);
        }
    }
    let below: u128 = whole * 100 + part;
    proof {
        assert(size as int * 100 == below as int * unit_size as int + left as int)
            by (nonlinear_arith)
            requires
                size as int == unit_size as int * (whole as int) + rest as int,
                rest as int * 100 == unit_size as int * (part as int) + left as int,
                below as int == whole as int * 100 + part as int,
        ;
        lemma_fundamental_div_mod_converse(
            size as int * 100,
            unit_size as int,
            below as int,
            left as int,
        );
    }
    if 2 * left > unit_size || (2 * left == unit_size && below % 2 == 1) {
        below + 1
    } else {
        below
    }
}

/// Appends the name of the unit of the given index to `out`.
pub fn push_unit_name(out: &mut String, unit: u8)
    ensures
        final(out)@ == old(out)@ + unit_name(unit as nat),
{
    if unit == 0 {
        out.push('B');
    } else {
        if unit == 1 {
            out.push('K');
        } else if unit == 2 {
            out.push('M');
        } else if unit == 3 {
            out.push('G');
        } else {
            out.push('T');
        }
        out.push('B');
    }
    proof {
        assert(out@ =~= old(out)@ + unit_name(unit as nat));
    }
}

/// Writes a byte count in binary units: the count is divided by 1024 while it is at
/// least 1024, up to terabytes, and shown with two decimals and the unit's name.
pub fn pretty_size(size: u128) -> (text: String)
    ensures
        text@ == pretty_size_text(size as nat),
{
    let (unit, unit_size) = choose_unit(size);
    let hundredths: u128 = scale_to_hundredths(size, unit_size);
    let mut text = String::new();
    push_two_decimals(&mut text, hundredths);
    text.push(' ');
    push_unit_name(&mut text, unit);
    proof {
        assert(text@ =~= pretty_size_text(size as nat));
    }
    text
}

} // verus!
