//! Media facts the engine relies on: the probed parameters of an animation,
//! its duration cap and its file size cap.

use crate::command::{digits_value, is_digit};
use vstd::prelude::*;
use vstd::string::{StrSliceExecFns, StringExecFns};

verus! {

#[derive(Debug, Clone, PartialEq, Eq)]
pub enum AnimationParamsError {
    InvalidFrameCount(String),
    InvalidFrameRate(String),
    NoStreams,
}

/// The probe's report on one video stream.
#[derive(Debug, Clone, PartialEq, Eq)]
pub struct StreamInfo {
    pub width: u16,
    pub height: u16,
    pub r_frame_rate: String,
    pub nb_read_frames: String,
}

#[derive(Debug, Clone, Copy, PartialEq, Eq, Structural)]
pub struct AnimationParams {
    pub width: i32,
    pub height: i32,
    pub fps_num: i32,
    pub fps_denom: i32,
    pub frames: i32,
}

pub open spec fn all_digits(s: Seq<char>, i: int, j: int) -> bool {
    forall|k: int| i <= k < j ==> is_digit(#[trigger] s[k])
}

/// A decimal integer as Rust writes it: an optional sign, then one or more
/// ASCII digits.
pub open spec fn integer_value(s: Seq<char>) -> Option<int> {
    let start: int = if s.len() > 0 && (s[0] == '-' || s[0] == '+') {
        1
    } else {
        0
    };
    if start >= s.len() || !all_digits(s, start, s.len() as int) {
        None
    } else if s[0] == '-' {
        Some(-(digits_value(s, 1, s.len() as int) as int))
    } else {
        Some(digits_value(s, start, s.len() as int) as int)
    }
}

/// `s` as an `i32`, if it is a decimal integer in range.
pub open spec fn i32_value(s: Seq<char>) -> Option<i32> {
    match integer_value(s) {
        Some(v) => if i32::MIN <= v <= i32::MAX {
            Some(v as i32)
        } else {
            None
        },
        None => None,
    }
}

/// Parses a decimal `i32`.
pub fn parse_i32(s: &str) -> (r: Option<i32>)
    ensures
        r == i32_value(s@),
{
    let n = s.unicode_len();
    if n == 0 {
        return None;
    }
    let first = s.get_char(0);
    let start: usize = if first == '-' || first == '+' {
        1
    } else {
        0
    };
    if start >= n {
        return None;
    }
    let cap: u64 = 4294967296;
    let mut v: u64 = 0;
    let mut j: usize = start;
    while j < n
        invariant
            n == s@.len(),
            start <= j <= n,
            start == (if s@[0] == '-' || s@[0] == '+' { 1int } else { 0int }),
            all_digits(s@, start as int, j as int),
            v == if digits_value(s@, start as int, j as int) < cap {
                digits_value(s@, start as int, j as int)
            } else {
                cap as nat
            },
            cap == 4294967296,
        decreases n - j,
    {
        let c = s.get_char(j);
        if !('0' <= c && c <= '9') {
            proof {
                assert(!all_digits(s@, start as int, n as int));
            }
            return None;
        }
        let d: u64 = (c as u32 - 48) as u64;
        let ghost before = digits_value(s@, start as int, j as int);
        proof {
            assert(digits_value(s@, start as int, j + 1) == before * 10 + d);
            assert(before * 10 + d >= before) by (nonlinear_arith)
                requires
                    before >= 0,
                    d >= 0,
            ;
        }
        if v < cap {
            let w: u64 = v * 10 + d;
            v = if w < cap {
                w
            } else {
                cap
            };
        }
        j = j + 1;
    }
    if first == '-' {
        if v <= 2147483648 {
            Some((-(v as i64)) as i32)
        } else {
            None
        }
    } else {
        if v <= 2147483647 {
            Some(v as i32)
        } else {
            None
        }
    }
}

/// The position of the first `/` in `s`, if any.
pub open spec fn first_slash(s: Seq<char>, p: int) -> bool {
    0 <= p < s.len() && s[p] == '/' && forall|k: int| 0 <= k < p ==> s[k] != '/'
}

/// The frame rate `num/denom` as two `i32`s, split at the first `/`.
pub open spec fn frame_rate_value(s: Seq<char>) -> Option<(i32, i32)> {
    if exists|p: int| first_slash(s, p) {
        let p = choose|p: int| first_slash(s, p);
        match (i32_value(s.subrange(0, p)), i32_value(s.subrange(p + 1, s.len() as int))) {
            (Some(num), Some(denom)) => Some((num, denom)),
            _ => None,
        }
    } else {
        None
    }
}

fn parse_frame_rate(s: &str) -> (r: Option<(i32, i32)>)
    ensures
        r == frame_rate_value(s@),
{
    let n = s.unicode_len();
    let mut p: usize = 0;
    while p < n && s.get_char(p) != '/'
        invariant
            n == s@.len(),
            p <= n,
            forall|k: int| 0 <= k < p ==> s@[k] != '/',
        decreases n - p,
    {
        p = p + 1;
    }
    if p == n {
        return None;
    }
    proof {
        assert(first_slash(s@, p as int));
        assert forall|q: int| first_slash(s@, q) implies q == p by {
            if q < p {
                assert(s@[q] != '/');
            } else if q > p {
                assert(s@[p as int] != '/');
            }
        }
    }
    let num = parse_i32(s.substring_char(0, p));
    let denom = parse_i32(s.substring_char(p + 1, n));
    match (num, denom) {
        (Some(a), Some(b)) => Some((a, b)),
        _ => None,
    }
}

impl AnimationParams {
    /// The parameters of the first stream of a probe report.
    pub fn from_streams(streams: &Vec<StreamInfo>) -> (r: Result<AnimationParams, AnimationParamsError>)
        ensures
            streams@.len() == 0 ==> r == Err::<AnimationParams, _>(AnimationParamsError::NoStreams),
            streams@.len() > 0 ==> {
                let st = streams@[0];
                match (frame_rate_value(st.r_frame_rate@), i32_value(st.nb_read_frames@)) {
                    (None, _) => r == Err::<AnimationParams, _>(
                        AnimationParamsError::InvalidFrameRate(st.r_frame_rate),
                    ),
                    (Some(_), None) => r == Err::<AnimationParams, _>(
                        AnimationParamsError::InvalidFrameCount(st.nb_read_frames),
                    ),
                    (Some((num, denom)), Some(frames)) => r == Ok::<_, AnimationParamsError>(
                        AnimationParams {
                            width: st.width as i32,
                            height: st.height as i32,
                            fps_num: num,
                            fps_denom: denom,
                            frames,
                        },
                    ),
                }
            },
    {
        if streams.len() == 0 {
            return Err(AnimationParamsError::NoStreams);
        }
        let st = &streams[0];
        let (num, denom) = match parse_frame_rate(st.r_frame_rate.as_str()) {
            Some(rate) => rate,
            None => return Err(AnimationParamsError::InvalidFrameRate(st.r_frame_rate.clone())),
        };
        let frames = match parse_i32(st.nb_read_frames.as_str()) {
            Some(f) => f,
            None => return Err(AnimationParamsError::InvalidFrameCount(st.nb_read_frames.clone())),
        };
        Ok(
            AnimationParams {
                width: st.width as i32,
                height: st.height as i32,
                fps_num: num,
                fps_denom: denom,
                frames,
            },
        )
    }

    /// Whether the duration `frames * fps_denom / fps_num` seconds exceeds
    /// `max_secs`; a zero frame rate counts as an endless animation unless it
    /// has no frames.
    pub fn duration_exceeds(&self, max_secs: u16) -> (r: bool)
        ensures
            r == duration_exceeds_spec(
                self.frames as int,
                self.fps_num as int,
                self.fps_denom as int,
                max_secs as int,
            ),
    {
        let f: i128 = self.frames as i128;
        let d: i128 = self.fps_denom as i128;
        assert(-2147483648 * 2147483648 <= f * d <= 2147483648 * 2147483648) by (nonlinear_arith)
            requires
                -2147483648 <= f <= 2147483647,
                -2147483648 <= d <= 2147483647,
        ;
        let len: i128 = f * d;
        let num: i128 = self.fps_num as i128;
        let max: i128 = max_secs as i128;
        assert(-2147483648 * 65536 <= max * num <= 2147483648 * 65536) by (nonlinear_arith)
            requires
                0 <= max <= 65535,
                -2147483648 <= num <= 2147483647,
        ;
        if num > 0 {
            len > max * num
        } else if num < 0 {
            len < max * num
        } else {
            len > 0
        }
    }
}

/// `frames * denom / num > max`, read as a real division where a positive
/// length over a zero rate is infinite and a zero one is undefined.
pub open spec fn duration_exceeds_spec(frames: int, num: int, denom: int, max: int) -> bool {
    if num > 0 {
        frames * denom > max * num
    } else if num < 0 {
        frames * denom < max * num
    } else {
        frames * denom > 0
    }
}

#[derive(Debug, Clone, Copy, PartialEq, Eq, Structural)]
pub enum SaveAnimationError {
    ApiResponseMissingSize,
    TooLarge(u64),
}

/// A download is allowed only when the platform reports its size and it is
/// within `max_size_bytes`.
pub fn check_file_size(size: Option<u64>, max_size_bytes: u64) -> (r: Result<(), SaveAnimationError>)
    ensures
        size is None ==> r == Err::<(), _>(SaveAnimationError::ApiResponseMissingSize),
        size matches Some(n) ==> (n > max_size_bytes <==> r == Err::<(), _>(
            SaveAnimationError::TooLarge(n),
        )) && (n <= max_size_bytes <==> r is Ok),
{
    match size {
        None => Err(SaveAnimationError::ApiResponseMissingSize),
        Some(n) => if n > max_size_bytes {
            Err(SaveAnimationError::TooLarge(n))
        } else {
            Ok(())
        },
    }
}

} // verus!
