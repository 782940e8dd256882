use crate::heuristics::coeffistic::{coeffs_are_valid, valid_coeffs};
use vstd::prelude::*;

verus! {

/// Where the reader of a coefficient file stands between two bytes.
#[derive(Clone, Copy, PartialEq, Eq, Structural)]
pub enum Mode {
    /// Between tokens.
    Normal,
    /// Just after a `/` that may open a comment.
    Slash,
    /// Inside a `//` comment, up to the end of the line.
    Comment,
    /// Just after a `-` that may start a negative number.
    Minus,
    /// Inside the digits of a number (`_` may separate them).
    Number,
    /// Inside a word that started with a letter or `_`, such as `i64` or `Box`.
    Word,
}

/// What the reader knows after a prefix of the text: where it stands, the sign and the
/// magnitude of the number it is reading, and the numbers read before it.
pub struct Scan {
    pub mode: Mode,
    pub neg: bool,
    pub mag: int,
    pub nums: Seq<int>,
}

/// `c` is an ASCII digit.
pub open spec fn is_digit(c: u8) -> bool {
    48 <= c <= 57
}

/// `c` is an ASCII letter or `_`.
pub open spec fn starts_word(c: u8) -> bool {
    (65 <= c <= 90) || (97 <= c <= 122) || c == 95
}

/// The number being read, with its sign.
pub open spec fn signed(s: Scan) -> int {
    if s.neg { -s.mag } else { s.mag }
}

/// Reading `c` between tokens, the numbers read so far being `nums`.
pub open spec fn start(nums: Seq<int>, c: u8) -> Scan {
    let mode = if c == 47 {
        Mode::Slash
    } else if c == 45 {
        Mode::Minus
    } else if is_digit(c) {
        Mode::Number
    } else if starts_word(c) {
        Mode::Word
    } else {
        Mode::Normal
    };
    Scan { mode, neg: false, mag: if is_digit(c) { c - 48 } else { 0 }, nums }
}

/// Reading the byte `c` in the state `s`.
pub open spec fn step(s: Scan, c: u8) -> Scan {
    match s.mode {
        Mode::Normal => start(s.nums, c),
        Mode::Slash => if c == 47 { Scan { mode: Mode::Comment, ..s } } else { start(s.nums, c) },
        Mode::Comment => if c == 10 { Scan { mode: Mode::Normal, ..s } } else { s },
        Mode::Minus => if is_digit(c) {
            Scan { mode: Mode::Number, neg: true, mag: c - 48, nums: s.nums }
        } else {
            start(s.nums, c)
        },
        Mode::Number => if is_digit(c) {
            Scan { mag: s.mag * 10 + (c - 48), ..s }
        } else if c == 95 {
            s
        } else {
            start(s.nums.push(signed(s)), c)
        },
        Mode::Word => if is_digit(c) || starts_word(c) { s } else { start(s.nums, c) },
    }
}

/// The state of the reader after the first `n` bytes of `text`.
pub open spec fn scan(text: Seq<u8>, n: nat) -> Scan
    decreases n,
{
    if n == 0 {
        Scan { mode: Mode::Normal, neg: false, mag: 0, nums: Seq::empty() }
    } else {
        step(scan(text, (n - 1) as nat), text[n - 1])
    }
}

/// The integers a coefficient file lists: the numbers outside `//` comments, each a run of
/// digits (with `_` allowed between them) right after a `-` for a negative one, and not
/// inside a word such as `i64`.
pub open spec fn listed_numbers(text: Seq<u8>) -> Seq<int> {
    let s = scan(text, text.len());
    if s.mode == Mode::Number { s.nums.push(signed(s)) } else { s.nums }
}

/// Every number of `nums` fits in an `i64`.
pub open spec fn all_fit(nums: Seq<int>) -> bool {
    forall|i: int| 0 <= i < nums.len() ==> i64::MIN <= #[trigger] nums[i] <= i64::MAX
}

/// The numbers of `nums` as integers.
pub open spec fn as_ints(v: Seq<i64>) -> Seq<int> {
    v.map_values(|x: i64| x as int)
}

/// Beyond any `i64` magnitude.
pub open spec fn too_big(mag: int) -> bool {
    mag > 0x8000_0000_0000_0000
}

/// The number being read by the scanner `(neg, mag)`, when it fits in an `i64`.
fn finish_number(neg: bool, mag: u128) -> (res: Option<i64>)
    requires
        mag <= 0x8000_0000_0000_0000,
    ensures
        res is Some <==> i64::MIN <= (if neg { -mag } else { mag as int }) <= i64::MAX,
        res is Some ==> res.unwrap() == (if neg { -mag } else { mag as int }),
{
    if neg {
        let m = mag as i128;
        Some((-m) as i64)
    } else if mag <= 0x7fff_ffff_ffff_ffff {
        Some(mag as i64)
    } else {
        None
    }
}

/// The integers listed in the text of a coefficient file, or `None` when one of them does
/// not fit in an `i64`.
pub fn parse_numbers(text: &[u8]) -> (res: Option<Vec<i64>>)
    ensures
        res is Some <==> all_fit(listed_numbers(text@)),
        res is Some ==> as_ints(res.unwrap()@) == listed_numbers(text@),
{
    let mut mode = Mode::Normal;
    let mut neg = false;
    let mut mag: u128 = 0;
    let mut over = false;
    let mut fits = true;
    let mut nums: Vec<i64> = Vec::new();
    let mut i: usize = 0;
    while i < text.len()
        invariant
            i <= text.len(),
            mode == scan(text@, i as nat).mode,
            neg == scan(text@, i as nat).neg,
            over == too_big(scan(text@, i as nat).mag),
            !over ==> mag == scan(text@, i as nat).mag,
            fits == all_fit(scan(text@, i as nat).nums),
            fits ==> as_ints(nums@) == scan(text@, i as nat).nums,
        decreases text.len() - i,
    {
        let c = text[i];
        let ghost s = scan(text@, i as nat);
        let mut restart = false;
        match mode {
            Mode::Normal => {
                restart = true;
            },
            Mode::Slash => {
                if c == 47 {
                    mode = Mode::Comment;
                } else {
                    restart = true;
                }
            },
            Mode::Comment => {
                if c == 10 {
                    mode = Mode::Normal;
                }
            },
            Mode::Minus => {
                if 48 <= c && c <= 57 {
                    mode = Mode::Number;
                    neg = true;
                    mag = (c - 48) as u128;
                    over = false;
                } else {
                    restart = true;
                }
            },
            Mode::Number => {
                if 48 <= c && c <= 57 {
                    if !over {
                        mag = mag * 10 + (c - 48) as u128;
                        if mag > 0x8000_0000_0000_0000 {
                            over = true;
                        }
                    }
                } else if c != 95 {
                    let number = if over { None } else { finish_number(neg, mag) };
                    match number {
                        Some(v) => {
                            if fits {
                                nums.push(v);
                            }
                        },
                        None => {
                            fits = false;
                        },
                    }
                    proof {
                        let t = s.nums.push(signed(s));
                        if fits {
                            assert(as_ints(nums@) =~= t);
                            assert forall|j: int| 0 <= j < t.len() implies i64::MIN <= #[trigger] t[j] <= i64::MAX by {
                                assert(t[j] == as_ints(nums@)[j]);
                            }
                        }
                        if number is None {
                            assert(!(i64::MIN <= t[t.len() - 1] <= i64::MAX));
                        }
                        if !all_fit(s.nums) {
                            let j = choose|j: int| 0 <= j < s.nums.len() && !(i64::MIN <= #[trigger] s.nums[j] <= i64::MAX);
                            assert(t[j] == s.nums[j]);
                        }
                    }
                    restart = true;
                }
            },
            Mode::Word => {
                if !((48 <= c && c <= 57) || (65 <= c && c <= 90) || (97 <= c && c <= 122) || c == 95) {
                    restart = true;
                }
            },
        }
        if restart {
            neg = false;
            over = false;
            if c == 47 {
                mode = Mode::Slash;
                mag = 0;
            } else if c == 45 {
                mode = Mode::Minus;
                mag = 0;
            } else if 48 <= c && c <= 57 {
                mode = Mode::Number;
                mag = (c - 48) as u128;
            } else if (65 <= c && c <= 90) || (97 <= c && c <= 122) || c == 95 {
                mode = Mode::Word;
                mag = 0;
            } else {
                mode = Mode::Normal;
                mag = 0;
            }
        }
        i += 1;
    }
    if mode == Mode::Number {
        let ghost s = scan(text@, i as nat);
        let number = if over { None } else { finish_number(neg, mag) };
        match number {
            Some(v) => {
                if fits {
                    nums.push(v);
                }
            },
            None => {
                fits = false;
            },
        }
        proof {
            let t = s.nums.push(signed(s));
            if fits {
                assert(as_ints(nums@) =~= t);
                assert forall|j: int| 0 <= j < t.len() implies i64::MIN <= #[trigger] t[j] <= i64::MAX by {
                    assert(t[j] == as_ints(nums@)[j]);
                }
            }
            if number is None {
                assert(!(i64::MIN <= t[t.len() - 1] <= i64::MAX));
            }
            if !all_fit(s.nums) {
                let j = choose|j: int| 0 <= j < s.nums.len() && !(i64::MIN <= #[trigger] s.nums[j] <= i64::MAX);
                assert(t[j] == s.nums[j]);
            }
        }
    }
    if fits { Some(nums) } else { None }
}

/// The coefficients of a coefficient file: its listed integers, when they fit in `i64`s and
/// make coefficients a heuristic accepts.
pub fn coeffs_from_text(text: &[u8]) -> (res: Option<Vec<i64>>)
    ensures
        res is Some <==> all_fit(listed_numbers(text@)) && valid_coeffs(
            listed_numbers(text@).map_values(|x: int| x as i64),
        ),
        res is Some ==> as_ints(res.unwrap()@) == listed_numbers(text@),
{
    match parse_numbers(text) {
        Some(coeffs) => {
            proof {
                let l = listed_numbers(text@);
                assert(coeffs@ =~= l.map_values(|x: int| x as i64));
            }
            if coeffs_are_valid(&coeffs) { Some(coeffs) } else { None }
        },
        None => None,
    }
}

} // verus!
