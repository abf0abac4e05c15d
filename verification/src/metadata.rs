//! The metadata block of an intensity-trace file: a small JSON object whose
//! `channels` key lists the enabled channel ids in record order.
//!
//! The engine reads the metadata by locating the first occurrence of the
//! quoted key `channels`, expecting a colon and then an array of decimal
//! channel ids (each at most 255), with JSON whitespace allowed around the
//! tokens. Anything else in the object is ignored. A block in which that
//! shape cannot be found is malformed, and the file it came from is
//! rejected.

use vstd::prelude::*;

verus! {

/// JSON whitespace.
pub open spec fn is_ws(b: u8) -> bool {
    b == 0x20 || b == 0x09 || b == 0x0A || b == 0x0D
}

/// An ASCII decimal digit.
pub open spec fn is_digit(b: u8) -> bool {
    0x30 <= b <= 0x39
}

/// First position at or after `i` holding a non-whitespace byte (or the
/// length of `s`).
pub open spec fn skip_ws(s: Seq<u8>, i: int) -> int
    decreases s.len() - i when 0 <= i <= s.len()
{
    if i < s.len() && is_ws(s[i]) {
        skip_ws(s, i + 1)
    } else {
        i
    }
}

/// First position at or after `i` holding a non-digit byte (or the length
/// of `s`).
pub open spec fn digits_end(s: Seq<u8>, i: int) -> int
    decreases s.len() - i when 0 <= i <= s.len()
{
    if i < s.len() && is_digit(s[i]) {
        digits_end(s, i + 1)
    } else {
        i
    }
}

/// Value of the decimal digits `s[i..j)`.
pub open spec fn digit_val(s: Seq<u8>, i: int, j: int) -> int
    decreases j - i when i <= j
{
    if i >= j {
        0
    } else {
        digit_val(s, i, j - 1) * 10 + (s[j - 1] - 0x30)
    }
}

/// The ten bytes of `"channels"` (quotes included) stand at position `i`.
pub open spec fn key_at(s: Seq<u8>, i: int) -> bool {
    &&& 0 <= i && i + 10 <= s.len()
    &&& s[i] == 0x22
    &&& s[i + 1] == 0x63
    &&& s[i + 2] == 0x68
    &&& s[i + 3] == 0x61
    &&& s[i + 4] == 0x6E
    &&& s[i + 5] == 0x6E
    &&& s[i + 6] == 0x65
    &&& s[i + 7] == 0x6C
    &&& s[i + 8] == 0x73
    &&& s[i + 9] == 0x22
}

/// First position at or after `i` where the quoted key stands, or -1.
pub open spec fn first_key(s: Seq<u8>, i: int) -> int
    decreases s.len() - i when 0 <= i <= s.len()
{
    if i + 10 > s.len() {
        -1
    } else if key_at(s, i) {
        i
    } else {
        first_key(s, i + 1)
    }
}

/// Parses the elements of the channel array from position `i` (just after
/// `[` or `,`): whitespace, a decimal value up to 255, whitespace, then a
/// `,` and further elements or the closing `]`. The fuel bounds the
/// recursion; one unit per element suffices.
pub open spec fn parse_elems(s: Seq<u8>, i: int, fuel: nat) -> Option<Seq<u8>>
    decreases fuel,
{
    if fuel == 0 || !(0 <= i <= s.len()) {
        None
    } else {
        let d = skip_ws(s, i);
        if d >= s.len() || !is_digit(s[d]) {
            None
        } else {
            let e = digits_end(s, d);
            if digit_val(s, d, e) > 255 {
                None
            } else {
                let v = digit_val(s, d, e) as u8;
                let t = skip_ws(s, e);
                if t >= s.len() {
                    None
                } else if s[t] == 0x2C {
                    match parse_elems(s, t + 1, (fuel - 1) as nat) {
                        Some(rest) => Some(seq![v] + rest),
                        None => None,
                    }
                } else if s[t] == 0x5D {
                    Some(seq![v])
                } else {
                    None
                }
            }
        }
    }
}

/// The channel list of a metadata block, if the block is well-formed:
/// the first quoted `channels` key, a colon, and an array of channel ids.
pub open spec fn parse_channels(s: Seq<u8>) -> Option<Seq<u8>> {
    let kp = first_key(s, 0);
    if kp == -1 {
        None
    } else {
        let c = skip_ws(s, kp + 10);
        if c >= s.len() || s[c] != 0x3A {
            None
        } else {
            let o = skip_ws(s, c + 1);
            if o >= s.len() || s[o] != 0x5B {
                None
            } else {
                let w = skip_ws(s, o + 1);
                if w < s.len() && s[w] == 0x5D {
                    Some(Seq::<u8>::empty())
                } else {
                    parse_elems(s, o + 1, s.len() + 1)
                }
            }
        }
    }
}

/// `skip_ws` never moves backwards and lands in range.
pub proof fn lemma_skip_ws_bounds(s: Seq<u8>, i: int)
    requires
        0 <= i <= s.len(),
    ensures
        i <= skip_ws(s, i) <= s.len(),
    decreases s.len() - i,
{
    if i < s.len() && is_ws(s[i]) {
        lemma_skip_ws_bounds(s, i + 1);
    }
}

/// `digits_end` never moves backwards and lands in range.
pub proof fn lemma_digits_end_bounds(s: Seq<u8>, i: int)
    requires
        0 <= i <= s.len(),
    ensures
        i <= digits_end(s, i) <= s.len(),
    decreases s.len() - i,
{
    if i < s.len() && is_digit(s[i]) {
        lemma_digits_end_bounds(s, i + 1);
    }
}

/// First non-whitespace position, by a forward scan.
fn skip_ws_exec(s: &Vec<u8>, i: usize) -> (r: usize)
    requires
        i <= s@.len(),
    ensures
        r == skip_ws(s@, i as int),
        i <= r <= s@.len(),
{
    let mut p = i;
    while p < s.len() && (s[p] == 0x20 || s[p] == 0x09 || s[p] == 0x0A || s[p] == 0x0D)
        invariant
            i <= p <= s@.len(),
            skip_ws(s@, i as int) == skip_ws(s@, p as int),
        decreases s@.len() - p,
    {
        p = p + 1;
    }
    proof {
        assert(skip_ws(s@, p as int) == p);
    }
    p
}

/// First non-digit position, by a forward scan.
fn digits_end_exec(s: &Vec<u8>, i: usize) -> (r: usize)
    requires
        i <= s@.len(),
    ensures
        r == digits_end(s@, i as int),
        i <= r <= s@.len(),
{
    let mut p = i;
    while p < s.len() && 0x30 <= s[p] && s[p] <= 0x39
        invariant
            i <= p <= s@.len(),
            digits_end(s@, i as int) == digits_end(s@, p as int),
        decreases s@.len() - p,
    {
        p = p + 1;
    }
    proof {
        assert(digits_end(s@, p as int) == p);
    }
    p
}

/// Position of the first quoted `channels` key, by a forward scan.
fn first_key_exec(s: &Vec<u8>) -> (r: Option<usize>)
    ensures
        match r {
            Some(p) => first_key(s@, 0) == p as int && key_at(s@, p as int) && p + 10
                <= s@.len(),
            None => first_key(s@, 0) == -1,
        },
{
    if s.len() < 10 {
        proof {
            assert(first_key(s@, 0) == -1);
        }
        return None;
    }
    let mut p: usize = 0;
    while p <= s.len() - 10
        invariant
            s@.len() >= 10,
            p <= s@.len() - 10 + 1,
            first_key(s@, 0) == first_key(s@, p as int),
        decreases s@.len() - p,
    {
        if s[p] == 0x22 && s[p + 1] == 0x63 && s[p + 2] == 0x68 && s[p + 3] == 0x61 && s[p + 4]
            == 0x6E && s[p + 5] == 0x6E && s[p + 6] == 0x65 && s[p + 7] == 0x6C && s[p + 8] == 0x73
            && s[p + 9] == 0x22 {
            proof {
                assert(key_at(s@, p as int));
                assert(first_key(s@, p as int) == p);
            }
            return Some(p);
        }
        proof {
            assert(!key_at(s@, p as int));
        }
        p = p + 1;
    }
    proof {
        assert(first_key(s@, p as int) == -1);
    }
    None
}

/// Parses the decimal value starting at `d`, reporting its end and whether
/// it exceeds 255.
fn parse_value_exec(s: &Vec<u8>, d: usize) -> (r: (usize, u64))
    requires
        d < s@.len(),
        is_digit(s@[d as int]),
    ensures
        r.0 == digits_end(s@, d as int),
        d < r.0 <= s@.len(),
        digit_val(s@, d as int, r.0 as int) <= 255 ==> r.1 == digit_val(s@, d as int, r.0 as int),
        digit_val(s@, d as int, r.0 as int) > 255 ==> r.1 == 300,
{
    let e = digits_end_exec(s, d);
    proof {
        assert(digits_end(s@, d as int) == digits_end(s@, d + 1));
        lemma_digits_end_bounds(s@, d + 1);
    }
    let mut v: u64 = 0;
    let mut p = d;
    while p < e
        invariant
            d <= p <= e <= s@.len(),
            e == digits_end(s@, d as int),
            digit_val(s@, d as int, p as int) <= 255 ==> v == digit_val(s@, d as int, p as int),
            digit_val(s@, d as int, p as int) > 255 ==> v == 300,
            v <= 300,
        decreases e - p,
    {
        proof {
            lemma_digits_in_range(s@, d as int, e as int, p as int);
            assert(digit_val(s@, d as int, p + 1) == digit_val(s@, d as int, p as int) * 10 + (
            s@[p as int] - 0x30));
            assert forall|x: int| d <= x < p implies is_digit(#[trigger] s@[x]) by {
                lemma_digits_in_range(s@, d as int, e as int, x);
            }
            assert(digit_val(s@, d as int, p as int) >= 0) by {
                lemma_digit_val_nonneg(s@, d as int, p as int);
            }
            if digit_val(s@, d as int, p as int) > 255 {
                assert(digit_val(s@, d as int, p + 1) > 255) by (nonlinear_arith)
                    requires
                        digit_val(s@, d as int, p + 1) == digit_val(s@, d as int, p as int) * 10
                            + (s@[p as int] - 0x30),
                        digit_val(s@, d as int, p as int) > 255,
                        s@[p as int] >= 0x30,
                ;
            }
        }
        let digit = s[p] - 0x30;
        let next = v * 10 + digit as u64;
        if next > 255 {
            v = 300;
        } else {
            v = next;
        }
        p = p + 1;
    }
    (e, v)
}

/// Digits run from `i` up to `digits_end`.
proof fn lemma_digits_in_range(s: Seq<u8>, i: int, e: int, p: int)
    requires
        0 <= i <= s.len(),
        e == digits_end(s, i),
        i <= p < e,
    ensures
        is_digit(s[p]),
        p < s.len(),
    decreases p - i,
{
    lemma_digits_end_bounds(s, i);
    if p == i {
        assert(is_digit(s[i]));
    } else {
        assert(digits_end(s, i) == digits_end(s, i + 1));
        lemma_digits_in_range(s, i + 1, e, p);
    }
}

/// A digit string's value is non-negative.
proof fn lemma_digit_val_nonneg(s: Seq<u8>, i: int, j: int)
    requires
        0 <= i <= j <= s.len(),
        forall|x: int| i <= x < j ==> is_digit(#[trigger] s[x]),
    ensures
        digit_val(s, i, j) >= 0,
    decreases j - i,
{
    if i < j {
        lemma_digit_val_nonneg(s, i, j - 1);
        assert(digit_val(s, i, j) == digit_val(s, i, j - 1) * 10 + (s[j - 1] - 0x30));
        assert(digit_val(s, i, j - 1) * 10 >= 0) by (nonlinear_arith)
            requires
                digit_val(s, i, j - 1) >= 0,
        ;
    }
}

/// The channel list of a metadata block, or `None` where the block lacks
/// the expected shape.
pub fn parse_channels_exec(s: &Vec<u8>) -> (r: Option<Vec<u8>>)
    ensures
        match r {
            Some(chs) => parse_channels(s@) == Some(chs@),
            None => parse_channels(s@) is None,
        },
{
    let kp = match first_key_exec(s) {
        Some(p) => p,
        None => {
            return None;
        },
    };
    let n = s.len();
    proof {
        assert(kp + 10 <= n);
    }
    let c = skip_ws_exec(s, kp + 10);
    if c >= s.len() || s[c] != 0x3A {
        return None;
    }
    let o = skip_ws_exec(s, c + 1);
    if o >= s.len() || s[o] != 0x5B {
        return None;
    }
    let w = skip_ws_exec(s, o + 1);
    if w < s.len() && s[w] == 0x5D {
        return Some(Vec::new());
    }
    let ghost fuel0: nat = s@.len() + 1;
    let mut acc: Vec<u8> = Vec::new();
    let mut p: usize = o + 1;
    let ghost mut fuel: nat = fuel0;
    proof {
        let r0 = parse_elems(s@, (o + 1) as int, fuel0);
        assert(parse_channels(s@) == r0);
        if r0 is Some {
            assert(acc@ + r0.unwrap() =~= r0.unwrap());
        }
    }
    while p < s.len()
        invariant
            p <= s@.len(),
            fuel >= s@.len() - p + 1,
            match parse_elems(s@, p as int, fuel) {
                Some(rest) => parse_channels(s@) == Some(acc@ + rest),
                None => parse_channels(s@) is None,
            },
        decreases s@.len() - p,
    {
        let d = skip_ws_exec(s, p);
        if d >= s.len() {
            return None;
        }
        if !(0x30 <= s[d] && s[d] <= 0x39) {
            return None;
        }
        let (e, v) = parse_value_exec(s, d);
        if v > 255 {
            return None;
        }
        let t = skip_ws_exec(s, e);
        if t >= s.len() {
            return None;
        }
        if s[t] == 0x2C {
            acc.push(v as u8);
            proof {
                let rest = parse_elems(s@, p as int, fuel);
                let rest2 = parse_elems(s@, t + 1, (fuel - 1) as nat);
                assert(rest == match rest2 {
                    Some(r2) => Some(seq![(v as u8)] + r2),
                    None => None::<Seq<u8>>,
                });
                if rest2 is Some {
                    assert(acc@ + rest2.unwrap() =~= acc@.drop_last() + rest.unwrap());
                }
                fuel = (fuel - 1) as nat;
            }
            p = t + 1;
        } else if s[t] == 0x5D {
            acc.push(v as u8);
            proof {
                assert(parse_elems(s@, p as int, fuel) == Some(seq![(v as u8)]));
                assert(acc@ =~= acc@.drop_last() + seq![(v as u8)]);
            }
            return Some(acc);
        } else {
            return None;
        }
    }
    proof {
        assert(skip_ws(s@, p as int) == p);
        assert(parse_elems(s@, p as int, fuel) is None);
    }
    None
}

} // verus!
