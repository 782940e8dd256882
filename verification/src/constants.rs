use vstd::prelude::*;

verus! {

/// Spacing between the marker dots drawn on the board.
pub const DOT_SPACING: usize = 6;

/// Spacing between the marker dots of the graphical board.
pub const MARKER_DOTS_SPACING: usize = 6;

/// Number of coefficients the grid training changes at once.
pub const N_MUTATIONS: usize = 6;

/// Number of won games a mutation of the grid training needs to be kept.
pub const REQUIRED_WINS: u32 = 40;

/// Smallest factor of a multiplicative mutation, in hundredths.
pub const MIN_MULTIPLICATIVE_MUTATION_PERCENT: u32 = 69;

/// Largest factor of a multiplicative mutation, in hundredths.
pub const MAX_MULTIPLICATIVE_MUTATION_PERCENT: u32 = 130;

/// The trained coefficients that go with a time limit: those trained at 2 ms, at 8 ms, or
/// at 32 ms per move.
#[derive(Clone, Copy, Debug, PartialEq, Eq)]
pub enum CoeffsSet {
    Ms2,
    Ms8,
    Ms32,
}

/// The coefficients trained for a time limit of `time_limit_ms`: up to 4 ms those of 2 ms,
/// up to 16 ms those of 8 ms, and those of 32 ms above.
pub fn coeffs_set(time_limit_ms: u64) -> (res: CoeffsSet)
    ensures
        time_limit_ms <= 4 ==> res == CoeffsSet::Ms2,
        5 <= time_limit_ms <= 16 ==> res == CoeffsSet::Ms8,
        time_limit_ms > 16 ==> res == CoeffsSet::Ms32,
{
    if time_limit_ms <= 4 {
        CoeffsSet::Ms2
    } else if time_limit_ms <= 16 {
        CoeffsSet::Ms8
    } else {
        CoeffsSet::Ms32
    }
}

/// The file that holds the current trained coefficients of a set.
pub fn coeffs_file(set: CoeffsSet) -> (res: &'static str)
    ensures
        set == CoeffsSet::Ms2 ==> res@ == "./coeffs/coeffs_002ms_new.rs"@,
        set == CoeffsSet::Ms8 ==> res@ == "./coeffs/coeffs_008ms_new.rs"@,
        set == CoeffsSet::Ms32 ==> res@ == "./coeffs/coeffs_032ms_new.rs"@,
{
    match set {
        CoeffsSet::Ms2 => "./coeffs/coeffs_002ms_new.rs",
        CoeffsSet::Ms8 => "./coeffs/coeffs_008ms_new.rs",
        CoeffsSet::Ms32 => "./coeffs/coeffs_032ms_new.rs",
    }
}

/// The file that holds the previous trained coefficients of a set.
pub fn old_coeffs_file(set: CoeffsSet) -> (res: &'static str)
    ensures
        set == CoeffsSet::Ms2 ==> res@ == "./coeffs/coeffs_002ms_old.rs"@,
        set == CoeffsSet::Ms8 ==> res@ == "./coeffs/coeffs_008ms_old.rs"@,
        set == CoeffsSet::Ms32 ==> res@ == "./coeffs/coeffs_032ms_old.rs"@,
{
    match set {
        CoeffsSet::Ms2 => "./coeffs/coeffs_002ms_old.rs",
        CoeffsSet::Ms8 => "./coeffs/coeffs_008ms_old.rs",
        CoeffsSet::Ms32 => "./coeffs/coeffs_032ms_old.rs",
    }
}

} // verus!
