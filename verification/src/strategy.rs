//! Strategy configuration: how overwrite offsets are placed inside a scan
//! range, and how the bytes at those offsets are mutated.

use vstd::prelude::*;
use vstd::string::StringExecFns;

verus! {

/// How the byte offsets to overwrite are chosen inside a scan range.
#[derive(Clone, Copy, PartialEq, Eq, Structural, Debug)]
pub enum PlacementKind {
    /// Evenly spaced offsets, one interval apart.
    Constant,
    /// Distinct uniformly drawn offsets.
    Random,
}

/// How a selected byte is mutated.
#[derive(Clone, Copy, PartialEq, Eq, Structural, Debug)]
pub enum OverwriteKind {
    /// Replace the byte with a uniformly drawn value in `[1, 255]`.
    Random,
    /// Subtract a uniformly drawn magnitude, saturating at the original value.
    RelativeOffset,
}

/// An immutable description of one corruption strategy.
#[derive(Clone, Copy, PartialEq, Eq, Structural, Debug)]
pub struct Strategy {
    pub placement: PlacementKind,
    pub overwrite: OverwriteKind,
    pub overwrite_count: u32,
    pub min_offset_magnitude: u8,
    pub max_offset_magnitude: u8,
}

impl Strategy {
    /// The configuration invariant: the magnitude interval is non-empty.
    pub open spec fn wf(self) -> bool {
        self.min_offset_magnitude <= self.max_offset_magnitude
    }
}

/// The decimal digit character for `d`.
pub open spec fn spec_digit(d: int) -> char {
    if d == 0 {
        '0'
    } else if d == 1 {
        '1'
    } else if d == 2 {
        '2'
    } else if d == 3 {
        '3'
    } else if d == 4 {
        '4'
    } else if d == 5 {
        '5'
    } else if d == 6 {
        '6'
    } else if d == 7 {
        '7'
    } else if d == 8 {
        '8'
    } else {
        '9'
    }
}

/// The decimal representation of `n`, most significant digit first.
pub open spec fn spec_decimal(n: int) -> Seq<char>
    decreases n,
{
    if n < 10 {
        seq![spec_digit(n)]
    } else {
        spec_decimal(n / 10).push(spec_digit(n % 10))
    }
}

/// The single-character string for one decimal digit.
fn digit_str(d: u64) -> (r: &'static str)
    requires
        d < 10,
    ensures
        r@ == seq![spec_digit(d as int)],
{
    let r: &'static str = match d {
        0 => "0",
        1 => "1",
        2 => "2",
        3 => "3",
        4 => "4",
        5 => "5",
        6 => "6",
        7 => "7",
        8 => "8",
        _ => "9",
    };
    proof {
        reveal_strlit("0");
        reveal_strlit("1");
        reveal_strlit("2");
        reveal_strlit("3");
        reveal_strlit("4");
        reveal_strlit("5");
        reveal_strlit("6");
        reveal_strlit("7");
        reveal_strlit("8");
        reveal_strlit("9");
        assert(r@ =~= seq![spec_digit(d as int)]);
    }
    r
}

/// Writes `n` in decimal.
pub fn decimal_string(n: u64) -> (r: String)
    ensures
        r@ == spec_decimal(n as int),
    decreases n,
{
    if n < 10 {
        String::from_str(digit_str(n))
    } else {
        let mut r = decimal_string(n / 10);
        r.append(digit_str(n % 10));
        proof {
            assert(r@ =~= spec_decimal(n as int));
        }
        r
    }
}

pub open spec fn spec_placement_name(p: PlacementKind) -> Seq<char> {
    match p {
        PlacementKind::Constant => "Constant"@,
        PlacementKind::Random => "Random"@,
    }
}

pub open spec fn spec_overwrite_name(o: OverwriteKind) -> Seq<char> {
    match o {
        OverwriteKind::Random => "Random"@,
        OverwriteKind::RelativeOffset => "RelativeOffset"@,
    }
}

/// The canonical textual identifier of a strategy: its placement and
/// overwrite names and its count, minimum magnitude and maximum
/// magnitude, joined by underscores. Every field that distinguishes two
/// configurations takes part, so distinct configurations get distinct
/// identifiers.
pub open spec fn spec_strategy_id(s: Strategy) -> Seq<char> {
    spec_placement_name(s.placement) + "_"@ + spec_overwrite_name(s.overwrite) + "_"@
        + spec_decimal(s.overwrite_count as int) + "_"@ + spec_decimal(
        s.min_offset_magnitude as int,
    ) + "_"@ + spec_decimal(s.max_offset_magnitude as int)
}

/// Builds the strategy's canonical identifier, used by callers to name
/// output artifacts.
pub fn strategy_to_str(strategy: &Strategy) -> (r: String)
    ensures
        r@ == spec_strategy_id(*strategy),
{
    let mut r = String::from_str(
        match strategy.placement {
            PlacementKind::Constant => "Constant",
            PlacementKind::Random => "Random",
        },
    );
    r.append("_");
    r.append(
        match strategy.overwrite {
            OverwriteKind::Random => "Random",
            OverwriteKind::RelativeOffset => "RelativeOffset",
        },
    );
    r.append("_");
    let count_str = decimal_string(strategy.overwrite_count as u64);
    r.append(count_str.as_str());
    r.append("_");
    let min_str = decimal_string(strategy.min_offset_magnitude as u64);
    r.append(min_str.as_str());
    r.append("_");
    let max_str = decimal_string(strategy.max_offset_magnitude as u64);
    r.append(max_str.as_str());
    proof {
        assert(r@ =~= spec_strategy_id(*strategy));
    }
    r
}

} // verus!
