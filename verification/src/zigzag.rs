//! The zigzag scan order of an 8x8 coefficient block: entry `i` of a table
//! or block as transmitted lands at natural (row-major) position
//! `zigzag_spec(i)`.

use vstd::prelude::*;

verus! {

/// Natural position of the `i`-th transmitted entry of an 8x8 block.
pub open spec fn zigzag_spec(i: int) -> int {
    if i == 0 {
        0
    } else if i == 1 {
        1
    } else if i == 2 {
        8
    } else if i == 3 {
        16
    } else if i == 4 {
        9
    } else if i == 5 {
        2
    } else if i == 6 {
        3
    } else if i == 7 {
        10
    } else if i == 8 {
        17
    } else if i == 9 {
        24
    } else if i == 10 {
        32
    } else if i == 11 {
        25
    } else if i == 12 {
        18
    } else if i == 13 {
        11
    } else if i == 14 {
        4
    } else if i == 15 {
        5
    } else if i == 16 {
        12
    } else if i == 17 {
        19
    } else if i == 18 {
        26
    } else if i == 19 {
        33
    } else if i == 20 {
        40
    } else if i == 21 {
        48
    } else if i == 22 {
        41
    } else if i == 23 {
        34
    } else if i == 24 {
        27
    } else if i == 25 {
        20
    } else if i == 26 {
        13
    } else if i == 27 {
        6
    } else if i == 28 {
        7
    } else if i == 29 {
        14
    } else if i == 30 {
        21
    } else if i == 31 {
        28
    } else if i == 32 {
        35
    } else if i == 33 {
        42
    } else if i == 34 {
        49
    } else if i == 35 {
        56
    } else if i == 36 {
        57
    } else if i == 37 {
        50
    } else if i == 38 {
        43
    } else if i == 39 {
        36
    } else if i == 40 {
        29
    } else if i == 41 {
        22
    } else if i == 42 {
        15
    } else if i == 43 {
        23
    } else if i == 44 {
        30
    } else if i == 45 {
        37
    } else if i == 46 {
        44
    } else if i == 47 {
        51
    } else if i == 48 {
        58
    } else if i == 49 {
        59
    } else if i == 50 {
        52
    } else if i == 51 {
        45
    } else if i == 52 {
        38
    } else if i == 53 {
        31
    } else if i == 54 {
        39
    } else if i == 55 {
        46
    } else if i == 56 {
        53
    } else if i == 57 {
        60
    } else if i == 58 {
        61
    } else if i == 59 {
        54
    } else if i == 60 {
        47
    } else if i == 61 {
        55
    } else if i == 62 {
        62
    } else {
        63
    }
}

/// Transmission position of the entry at natural position `j`; the inverse
/// of `zigzag_spec`.
pub open spec fn inv_zigzag_spec(j: int) -> int {
    if j == 0 {
        0
    } else if j == 1 {
        1
    } else if j == 2 {
        5
    } else if j == 3 {
        6
    } else if j == 4 {
        14
    } else if j == 5 {
        15
    } else if j == 6 {
        27
    } else if j == 7 {
        28
    } else if j == 8 {
        2
    } else if j == 9 {
        4
    } else if j == 10 {
        7
    } else if j == 11 {
        13
    } else if j == 12 {
        16
    } else if j == 13 {
        26
    } else if j == 14 {
        29
    } else if j == 15 {
        42
    } else if j == 16 {
        3
    } else if j == 17 {
        8
    } else if j == 18 {
        12
    } else if j == 19 {
        17
    } else if j == 20 {
        25
    } else if j == 21 {
        30
    } else if j == 22 {
        41
    } else if j == 23 {
        43
    } else if j == 24 {
        9
    } else if j == 25 {
        11
    } else if j == 26 {
        18
    } else if j == 27 {
        24
    } else if j == 28 {
        31
    } else if j == 29 {
        40
    } else if j == 30 {
        44
    } else if j == 31 {
        53
    } else if j == 32 {
        10
    } else if j == 33 {
        19
    } else if j == 34 {
        23
    } else if j == 35 {
        32
    } else if j == 36 {
        39
    } else if j == 37 {
        45
    } else if j == 38 {
        52
    } else if j == 39 {
        54
    } else if j == 40 {
        20
    } else if j == 41 {
        22
    } else if j == 42 {
        33
    } else if j == 43 {
        38
    } else if j == 44 {
        46
    } else if j == 45 {
        51
    } else if j == 46 {
        55
    } else if j == 47 {
        60
    } else if j == 48 {
        21
    } else if j == 49 {
        34
    } else if j == 50 {
        37
    } else if j == 51 {
        47
    } else if j == 52 {
        50
    } else if j == 53 {
        56
    } else if j == 54 {
        59
    } else if j == 55 {
        61
    } else if j == 56 {
        35
    } else if j == 57 {
        36
    } else if j == 58 {
        48
    } else if j == 59 {
        49
    } else if j == 60 {
        57
    } else if j == 61 {
        58
    } else if j == 62 {
        62
    } else {
        63
    }
}

/// The zigzag order is a permutation of the 64 block positions:
/// `zigzag_spec` maps `0..64` into `0..64` and `inv_zigzag_spec` undoes it.
pub proof fn lemma_zigzag_bijective()
    ensures
        forall|i: int| 0 <= i < 64 ==> 0 <= #[trigger] zigzag_spec(i) < 64,
        forall|i: int| 0 <= i < 64 ==> inv_zigzag_spec(#[trigger] zigzag_spec(i)) == i,
        forall|j: int| 0 <= j < 64 ==> 0 <= #[trigger] inv_zigzag_spec(j) < 64,
        forall|j: int| 0 <= j < 64 ==> zigzag_spec(#[trigger] inv_zigzag_spec(j)) == j,
{
}

/// Looks up the natural position of transmitted entry `i`.
pub fn zigzag(i: usize) -> (r: usize)
    requires
        i < 64,
    ensures
        r == zigzag_spec(i as int),
        r < 64,
{
    match i {
        0 => 0,
        1 => 1,
        2 => 8,
        3 => 16,
        4 => 9,
        5 => 2,
        6 => 3,
        7 => 10,
        8 => 17,
        9 => 24,
        10 => 32,
        11 => 25,
        12 => 18,
        13 => 11,
        14 => 4,
        15 => 5,
        16 => 12,
        17 => 19,
        18 => 26,
        19 => 33,
        20 => 40,
        21 => 48,
        22 => 41,
        23 => 34,
        24 => 27,
        25 => 20,
        26 => 13,
        27 => 6,
        28 => 7,
        29 => 14,
        30 => 21,
        31 => 28,
        32 => 35,
        33 => 42,
        34 => 49,
        35 => 56,
        36 => 57,
        37 => 50,
        38 => 43,
        39 => 36,
        40 => 29,
        41 => 22,
        42 => 15,
        43 => 23,
        44 => 30,
        45 => 37,
        46 => 44,
        47 => 51,
        48 => 58,
        49 => 59,
        50 => 52,
        51 => 45,
        52 => 38,
        53 => 31,
        54 => 39,
        55 => 46,
        56 => 53,
        57 => 60,
        58 => 61,
        59 => 54,
        60 => 47,
        61 => 55,
        62 => 62,
        _ => 63,
    }
}

} // verus!
