//! Positions in the file index and the tokens that name them.
//!
//! A token names the key of one file, its camera id and start time. It is
//! thirty-two lower-case hexadecimal digits: sixteen for the camera id, then
//! sixteen for the start time, each number written as its distance from
//! `i64::MIN`.

use crate::models::CameraFile;
use vstd::prelude::*;
use vstd::string::StringExecFns;

verus! {

/// Where a page of files starts.
#[derive(Clone, Copy, Debug, PartialEq, Eq)]
pub enum CameraFileQueryCursor {
    /// At the newest file.
    Start,
    /// Right after the file with this camera id and start time, towards
    /// older files.
    After((i64, i64)),
    /// Right before the file with this camera id and start time, towards
    /// newer files.
    Before((i64, i64)),
}

/// The hexadecimal digit for `d`.
pub open spec fn hex_char(d: int) -> char {
    if d == 0 {
        '0'
    } else if d == 1 {
        '1'
    } else if d == 2 {
        '2'
    } else if d == 3 {
        '3'
    } else if d == 4 {
        '4'
    } else if d == 5 {
        '5'
    } else if d == 6 {
        '6'
    } else if d == 7 {
        '7'
    } else if d == 8 {
        '8'
    } else if d == 9 {
        '9'
    } else if d == 10 {
        'a'
    } else if d == 11 {
        'b'
    } else if d == 12 {
        'c'
    } else if d == 13 {
        'd'
    } else if d == 14 {
        'e'
    } else {
        'f'
    }
}

/// The value of the hexadecimal digit `c`, if it is one.
pub open spec fn hex_digit(c: char) -> Option<int> {
    if c == '0' {
        Some(0)
    } else if c == '1' {
        Some(1)
    } else if c == '2' {
        Some(2)
    } else if c == '3' {
        Some(3)
    } else if c == '4' {
        Some(4)
    } else if c == '5' {
        Some(5)
    } else if c == '6' {
        Some(6)
    } else if c == '7' {
        Some(7)
    } else if c == '8' {
        Some(8)
    } else if c == '9' {
        Some(9)
    } else if c == 'a' {
        Some(10)
    } else if c == 'b' {
        Some(11)
    } else if c == 'c' {
        Some(12)
    } else if c == 'd' {
        Some(13)
    } else if c == 'e' {
        Some(14)
    } else if c == 'f' {
        Some(15)
    } else {
        None
    }
}

/// Sixteen to the power `n`.
pub open spec fn pow16(n: nat) -> int
    decreases n,
{
    if n == 0 {
        1
    } else {
        16 * pow16((n - 1) as nat)
    }
}

/// The lowest `n` hexadecimal digits of `x`, highest first.
pub open spec fn hex_word(x: int, n: nat) -> Seq<char>
    decreases n,
{
    if n == 0 {
        Seq::empty()
    } else {
        hex_word(x / 16, (n - 1) as nat).push(hex_char(x % 16))
    }
}

/// The number that the hexadecimal digits `s` write, if all are digits.
pub open spec fn hex_value(s: Seq<char>) -> Option<int>
    decreases s.len(),
{
    if s.len() == 0 {
        Some(0)
    } else {
        match (hex_value(s.drop_last()), hex_digit(s.last())) {
            (Some(v), Some(d)) => Some(16 * v + d),
            _ => None,
        }
    }
}

/// The distance of `v` from `i64::MIN`.
pub open spec fn bias(v: i64) -> int {
    v - i64::MIN
}

/// The token for the file key `(camera_id, start_time)`.
pub open spec fn token(camera_id: i64, start_time: i64) -> Seq<char> {
    hex_word(bias(camera_id), 16) + hex_word(bias(start_time), 16)
}

/// The file key `(camera_id, start_time)` that `s` names, if it is a token.
pub open spec fn parse_token(s: Seq<char>) -> Option<(i64, i64)> {
    if s.len() == 32 {
        match (hex_value(s.take(16)), hex_value(s.skip(16))) {
            (Some(a), Some(b)) => Some(((a + i64::MIN) as i64, (b + i64::MIN) as i64)),
            _ => None,
        }
    } else {
        None
    }
}

/// A word of `n` digits has `n` characters.
pub proof fn lemma_hex_word_len(x: int, n: nat)
    ensures
        hex_word(x, n).len() == n,
    decreases n,
{
    if n > 0 {
        lemma_hex_word_len(x / 16, (n - 1) as nat);
    }
}

/// Digits that are read give a number below sixteen to their count.
pub proof fn lemma_hex_value_bound(s: Seq<char>)
    ensures
        hex_value(s) matches Some(v) ==> 0 <= v < pow16(s.len()),
    decreases s.len(),
{
    if s.len() > 0 {
        lemma_hex_value_bound(s.drop_last());
    }
}

/// Reading the `n` digits written for `x` gives `x` back.
pub proof fn lemma_hex_roundtrip(x: int, n: nat)
    requires
        0 <= x < pow16(n),
    ensures
        hex_value(hex_word(x, n)) == Some(x),
    decreases n,
{
    if n > 0 {
        let w = hex_word(x, n);
        lemma_hex_word_len(x / 16, (n - 1) as nat);
        assert(w.drop_last() =~= hex_word(x / 16, (n - 1) as nat));
        assert(w.last() == hex_char(x % 16));
        assert(hex_digit(hex_char(x % 16)) == Some(x % 16));
        lemma_hex_roundtrip(x / 16, (n - 1) as nat);
    }
}

/// Tokens round-trip: the token of a key names that key.
pub proof fn lemma_token_roundtrip(camera_id: i64, start_time: i64)
    ensures
        token(camera_id, start_time).len() == 32,
        parse_token(token(camera_id, start_time)) == Some((camera_id, start_time)),
{
    let a = hex_word(bias(camera_id), 16);
    let b = hex_word(bias(start_time), 16);
    lemma_hex_word_len(bias(camera_id), 16);
    lemma_hex_word_len(bias(start_time), 16);
    assert(pow16(16) == 0x1_0000_0000_0000_0000) by {
        reveal_with_fuel(pow16, 17);
    }
    lemma_hex_roundtrip(bias(camera_id), 16);
    lemma_hex_roundtrip(bias(start_time), 16);
    assert((a + b).take(16) =~= a);
    assert((a + b).skip(16) =~= b);
}

/// The one-character text of the hexadecimal digit `d`.
fn hex_str(d: u8) -> (s: &'static str)
    requires
        d < 16,
    ensures
        s@ == seq![hex_char(d as int)],
{
    proof {
        reveal_strlit("0");
        reveal_strlit("1");
        reveal_strlit("2");
        reveal_strlit("3");
        reveal_strlit("4");
        reveal_strlit("5");
        reveal_strlit("6");
        reveal_strlit("7");
        reveal_strlit("8");
        reveal_strlit("9");
        reveal_strlit("a");
        reveal_strlit("b");
        reveal_strlit("c");
        reveal_strlit("d");
        reveal_strlit("e");
        reveal_strlit("f");
    }
    let s = if d == 0 {
        "0"
    } else if d == 1 {
        "1"
    } else if d == 2 {
        "2"
    } else if d == 3 {
        "3"
    } else if d == 4 {
        "4"
    } else if d == 5 {
        "5"
    } else if d == 6 {
        "6"
    } else if d == 7 {
        "7"
    } else if d == 8 {
        "8"
    } else if d == 9 {
        "9"
    } else if d == 10 {
        "a"
    } else if d == 11 {
        "b"
    } else if d == 12 {
        "c"
    } else if d == 13 {
        "d"
    } else if d == 14 {
        "e"
    } else {
        "f"
    };
    assert(s@ =~= seq![hex_char(d as int)]);
    s
}

/// The value of the hexadecimal digit `c`, if it is one.
fn digit_of(c: char) -> (d: Option<u8>)
    ensures
        match d {
            Some(v) => hex_digit(c) == Some(v as int) && v < 16,
            None => hex_digit(c) is None,
        },
{
    if c == '0' {
        Some(0)
    } else if c == '1' {
        Some(1)
    } else if c == '2' {
        Some(2)
    } else if c == '3' {
        Some(3)
    } else if c == '4' {
        Some(4)
    } else if c == '5' {
        Some(5)
    } else if c == '6' {
        Some(6)
    } else if c == '7' {
        Some(7)
    } else if c == '8' {
        Some(8)
    } else if c == '9' {
        Some(9)
    } else if c == 'a' {
        Some(10)
    } else if c == 'b' {
        Some(11)
    } else if c == 'c' {
        Some(12)
    } else if c == 'd' {
        Some(13)
    } else if c == 'e' {
        Some(14)
    } else if c == 'f' {
        Some(15)
    } else {
        None
    }
}

/// Writes the sixteen hexadecimal digits of `x`.
fn write_word(x: u64) -> (s: String)
    ensures
        s@ == hex_word(x as int, 16),
{
    let mut s = String::new();
    let mut v: u64 = x;
    let mut i: u8 = 0;
    while i < 16
        invariant
            i <= 16,
            hex_word(x as int, 16) == hex_word(v as int, (16 - i) as nat) + s@,
        decreases 16 - i,
    {
        let d = (v % 16) as u8;
        let t = String::from_str(hex_str(d)).concat(s.as_str());
        proof {
            let m = (16 - i) as nat;
            assert(hex_word(v as int, m) == hex_word(v as int / 16, (m - 1) as nat).push(
                hex_char(v as int % 16),
            ));
            assert(hex_word(v as int, m) + s@ =~= hex_word(v as int / 16, (m - 1) as nat) + t@);
        }
        s = t;
        v = v / 16;
        i += 1;
    }
    assert(hex_word(v as int, 0) + s@ =~= s@);
    s
}

/// Reads the sixteen hexadecimal digits of `s` that start at `from`.
fn read_word(s: &str, from: usize) -> (r: Option<u64>)
    requires
        from + 16 <= s@.len(),
        s@.len() <= 32,
    ensures
        match r {
            Some(v) => hex_value(s@.subrange(from as int, from + 16)) == Some(v as int),
            None => hex_value(s@.subrange(from as int, from + 16)) is None,
        },
{
    let ghost w = s@.subrange(from as int, from + 16);
    let mut v: u64 = 0;
    let mut i: usize = 0;
    while i < 16
        invariant
            i <= 16,
            from + 16 <= s@.len(),
            s@.len() <= 32,
            w == s@.subrange(from as int, from + 16),
            hex_value(w.take(i as int)) == Some(v as int),
        decreases 16 - i,
    {
        let c = s.get_char(from + i);
        proof {
            assert(w.take(i + 1).drop_last() =~= w.take(i as int));
            assert(w.take(i + 1).last() == c);
            lemma_hex_value_bound(w.take(i as int));
            lemma_hex_value_bound(w.take(i + 1));
            assert(pow16(16) == 0x1_0000_0000_0000_0000) by {
                reveal_with_fuel(pow16, 17);
            }
            lemma_pow16_rises((i + 1) as nat, 16);
            if hex_digit(c) is None {
                lemma_hex_value_none(w, i + 1);
            }
        }
        match digit_of(c) {
            Some(d) => {
                v = v * 16 + d as u64;
            },
            None => {
                return None;
            },
        }
        i += 1;
    }
    assert(w.take(16) =~= w);
    Some(v)
}

/// Powers of sixteen do not fall.
pub proof fn lemma_pow16_rises(m: nat, n: nat)
    requires
        m <= n,
    ensures
        0 < pow16(m) <= pow16(n),
    decreases n,
{
    if m < n {
        lemma_pow16_rises(m, (n - 1) as nat);
    } else if n > 0 {
        lemma_pow16_rises((m - 1) as nat, (n - 1) as nat);
    }
}

/// Digits that cannot be read up to `k` cannot be read as a whole.
pub proof fn lemma_hex_value_none(s: Seq<char>, k: int)
    requires
        0 <= k <= s.len(),
        hex_value(s.take(k)) is None,
    ensures
        hex_value(s) is None,
    decreases s.len() - k,
{
    if k < s.len() {
        assert(s.take(k + 1).drop_last() =~= s.take(k));
        lemma_hex_value_none(s, k + 1);
    } else {
        assert(s.take(k) =~= s);
    }
}

impl CameraFileQueryCursor {
    /// Whether a page that starts at this position may hold the file `f`.
    pub open spec fn admits(self, f: CameraFile) -> bool {
        match self {
            CameraFileQueryCursor::Start => true,
            CameraFileQueryCursor::After((id, time)) => CameraFile::key_before(
                time,
                id,
                f.start_time,
                f.camera_id,
            ),
            CameraFileQueryCursor::Before((id, time)) => CameraFile::key_before(
                f.start_time,
                f.camera_id,
                time,
                id,
            ),
        }
    }

    /// The token for the file key `(camera_id, start_time)`.
    pub fn to(camera_id: i64, start_time: i64) -> (s: String)
        ensures
            s@ == token(camera_id, start_time),
    {
        let a = write_word((camera_id as i128 + 0x8000_0000_0000_0000i128) as u64);
        let b = write_word((start_time as i128 + 0x8000_0000_0000_0000i128) as u64);
        a.concat(b.as_str())
    }

    /// The file key `(camera_id, start_time)` that `token` names; `None` when
    /// the text is no token.
    pub fn parse(token: &str) -> (r: Option<(i64, i64)>)
        ensures
            r == parse_token(token@),
    {
        if token.unicode_len() != 32 {
            return None;
        }
        let a = read_word(token, 0);
        let b = read_word(token, 16);
        proof {
            assert(token@.subrange(0, 16) =~= token@.take(16));
            assert(token@.subrange(16, 32) =~= token@.skip(16));
            lemma_hex_value_bound(token@.take(16));
            lemma_hex_value_bound(token@.skip(16));
            assert(pow16(16) == 0x1_0000_0000_0000_0000) by {
                reveal_with_fuel(pow16, 17);
            }
        }
        match (a, b) {
            (Some(a), Some(b)) => Some(
                (
                    (a as i128 - 0x8000_0000_0000_0000i128) as i64,
                    (b as i128 - 0x8000_0000_0000_0000i128) as i64,
                ),
            ),
            _ => None,
        }
    }

    /// The position right after the file that `token` names; `None` when the
    /// text is no token.
    pub fn after(token: &str) -> (r: Option<CameraFileQueryCursor>)
        ensures
            r == match parse_token(token@) {
                Some(key) => Some(CameraFileQueryCursor::After(key)),
                None => None,
            },
    {
        match Self::parse(token) {
            Some(key) => Some(CameraFileQueryCursor::After(key)),
            None => None,
        }
    }

    /// The position right before the file that `token` names; `None` when
    /// the text is no token.
    pub fn before(token: &str) -> (r: Option<CameraFileQueryCursor>)
        ensures
            r == match parse_token(token@) {
                Some(key) => Some(CameraFileQueryCursor::Before(key)),
                None => None,
            },
    {
        match Self::parse(token) {
            Some(key) => Some(CameraFileQueryCursor::Before(key)),
            None => None,
        }
    }
}

} // verus!
