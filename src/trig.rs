//! Integer trigonometry on headings measured in centidegrees.
use vstd::prelude::*;

verus! {

/// Headings are measured in hundredths of a degree: a full turn is this many units.
pub const FULL_TURN: u32 = 36000;

/// A quarter turn, in heading units.
pub const QUARTER_TURN: u32 = 9000;

/// Sines and cosines are fixed-point numbers with this many units per 1.0.
pub const TRIG_SCALE: i64 = 1000000;

/// The sine of a whole number of degrees in `[0, 90]`, rounded to the nearest millionth.
#[verifier::opaque]
pub open spec fn sine_table(deg: u32) -> int {
    match deg {
            0 => 0,
            1 => 17452,
            2 => 34899,
            3 => 52336,
            4 => 69756,
            5 => 87156,
            6 => 104528,
            7 => 121869,
            8 => 139173,
            9 => 156434,
            10 => 173648,
            11 => 190809,
            12 => 207912,
            13 => 224951,
            14 => 241922,
            15 => 258819,
            16 => 275637,
            17 => 292372,
            18 => 309017,
            19 => 325568,
            20 => 342020,
            21 => 358368,
            22 => 374607,
            23 => 390731,
            24 => 406737,
            25 => 422618,
            26 => 438371,
            27 => 453990,
            28 => 469472,
            29 => 484810,
            30 => 500000,
            31 => 515038,
            32 => 529919,
            33 => 544639,
            34 => 559193,
            35 => 573576,
            36 => 587785,
            37 => 601815,
            38 => 615661,
            39 => 629320,
            40 => 642788,
            41 => 656059,
            42 => 669131,
            43 => 681998,
            44 => 694658,
            45 => 707107,
            46 => 719340,
            47 => 731354,
            48 => 743145,
            49 => 754710,
            50 => 766044,
            51 => 777146,
            52 => 788011,
            53 => 798636,
            54 => 809017,
            55 => 819152,
            56 => 829038,
            57 => 838671,
            58 => 848048,
            59 => 857167,
            60 => 866025,
            61 => 874620,
            62 => 882948,
            63 => 891007,
            64 => 898794,
            65 => 906308,
            66 => 913545,
            67 => 920505,
            68 => 927184,
            69 => 933580,
            70 => 939693,
            71 => 945519,
            72 => 951057,
            73 => 956305,
            74 => 961262,
            75 => 965926,
            76 => 970296,
            77 => 974370,
            78 => 978148,
            79 => 981627,
            80 => 984808,
            81 => 987688,
            82 => 990268,
            83 => 992546,
            84 => 994522,
            85 => 996195,
            86 => 997564,
            87 => 998630,
            88 => 999391,
            89 => 999848,
            90 => 1000000,
            _ => 0,
    }
}

/// Rounds a heading to the nearest whole degree, in `[0, 360)`.
pub open spec fn heading_degrees(direction: u32) -> u32 {
    (((direction + 50) / 100) % 360) as u32
}

/// The fixed-point sine of a whole number of degrees in `[0, 360)`.
pub open spec fn sin_deg(deg: u32) -> int {
    if deg <= 90 {
        sine_table(deg)
    } else if deg <= 180 {
        sine_table((180 - deg) as u32)
    } else if deg <= 270 {
        -sine_table((deg - 180) as u32)
    } else {
        -sine_table((360 - deg) as u32)
    }
}

/// The fixed-point cosine of a whole number of degrees in `[0, 360)`.
pub open spec fn cos_deg(deg: u32) -> int {
    sin_deg(((deg + 90) % 360) as u32)
}

/// The fixed-point sine of a heading, taken at the nearest whole degree.
pub open spec fn sin_of(direction: u32) -> int {
    sin_deg(heading_degrees(direction))
}

/// The fixed-point cosine of a heading, taken at the nearest whole degree.
pub open spec fn cos_of(direction: u32) -> int {
    cos_deg(heading_degrees(direction))
}

/// Every entry of the table lies in `[0, TRIG_SCALE]`.
pub proof fn lemma_sine_table_range(deg: u32)
    ensures
        0 <= sine_table(deg) <= TRIG_SCALE,
{
    reveal(sine_table);
}

/// A sine lies in `[-TRIG_SCALE, TRIG_SCALE]`.
pub proof fn lemma_sin_deg_range(deg: u32)
    ensures
        -TRIG_SCALE <= sin_deg(deg) <= TRIG_SCALE,
{
    lemma_sine_table_range(deg);
    lemma_sine_table_range((180 - deg) as u32);
    lemma_sine_table_range((deg - 180) as u32);
    lemma_sine_table_range((360 - deg) as u32);
}

fn sine_lookup(deg: u32) -> (r: i64)
    requires
        deg <= 90,
    ensures
        r == sine_table(deg),
        0 <= r <= TRIG_SCALE,
{
    proof {
        reveal(sine_table);
    }
    match deg {
        0 => 0,
        1 => 17452,
        2 => 34899,
        3 => 52336,
        4 => 69756,
        5 => 87156,
        6 => 104528,
        7 => 121869,
        8 => 139173,
        9 => 156434,
        10 => 173648,
        11 => 190809,
        12 => 207912,
        13 => 224951,
        14 => 241922,
        15 => 258819,
        16 => 275637,
        17 => 292372,
        18 => 309017,
        19 => 325568,
        20 => 342020,
        21 => 358368,
        22 => 374607,
        23 => 390731,
        24 => 406737,
        25 => 422618,
        26 => 438371,
        27 => 453990,
        28 => 469472,
        29 => 484810,
        30 => 500000,
        31 => 515038,
        32 => 529919,
        33 => 544639,
        34 => 559193,
        35 => 573576,
        36 => 587785,
        37 => 601815,
        38 => 615661,
        39 => 629320,
        40 => 642788,
        41 => 656059,
        42 => 669131,
        43 => 681998,
        44 => 694658,
        45 => 707107,
        46 => 719340,
        47 => 731354,
        48 => 743145,
        49 => 754710,
        50 => 766044,
        51 => 777146,
        52 => 788011,
        53 => 798636,
        54 => 809017,
        55 => 819152,
        56 => 829038,
        57 => 838671,
        58 => 848048,
        59 => 857167,
        60 => 866025,
        61 => 874620,
        62 => 882948,
        63 => 891007,
        64 => 898794,
        65 => 906308,
        66 => 913545,
        67 => 920505,
        68 => 927184,
        69 => 933580,
        70 => 939693,
        71 => 945519,
        72 => 951057,
        73 => 956305,
        74 => 961262,
        75 => 965926,
        76 => 970296,
        77 => 974370,
        78 => 978148,
        79 => 981627,
        80 => 984808,
        81 => 987688,
        82 => 990268,
        83 => 992546,
        84 => 994522,
        85 => 996195,
        86 => 997564,
        87 => 998630,
        88 => 999391,
        89 => 999848,
        90 => 1000000,
        _ => 0,
    }
}

fn sine_degrees(deg: u32) -> (r: i64)
    requires
        deg < 360,
    ensures
        r == sin_deg(deg),
        -TRIG_SCALE <= r <= TRIG_SCALE,
{
    if deg <= 90 {
        sine_lookup(deg)
    } else if deg <= 180 {
        sine_lookup(180 - deg)
    } else if deg <= 270 {
        -sine_lookup(deg - 180)
    } else {
        -sine_lookup(360 - deg)
    }
}

/// The fixed-point cosine and sine of a heading.
pub fn cos_sin(direction: u32) -> (r: (i64, i64))
    requires
        direction < FULL_TURN,
    ensures
        r.0 == cos_of(direction),
        r.1 == sin_of(direction),
        -TRIG_SCALE <= r.0 <= TRIG_SCALE,
        -TRIG_SCALE <= r.1 <= TRIG_SCALE,
{
    let deg: u32 = ((direction + 50) / 100) % 360;
    let c = sine_degrees((deg + 90) % 360);
    let s = sine_degrees(deg);
    (c, s)
}

} // verus!
