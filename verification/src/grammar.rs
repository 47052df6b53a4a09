//! The textual grammar of addresses and ports.
//!
//! Patterns are plain text: `a.b.c.d`, an IPv6 form such as `::ffff:1.2.3.4`,
//! or either of them with a port (`a.b.c.d:p`, `[v6]:p`). This module defines
//! the grammar twice: once as specification functions over `Seq<char>`, which
//! are the reference the contracts speak of, and once as executable readers
//! proved to return exactly what the specification functions say.
//!
//! Every reader takes a start index and is greedy: it consumes the longest
//! run it can and reports the index just past what it consumed. Whole-string
//! parses then require that index to be the string's length, so trailing
//! garbage (`1.2.3.4.5`, `1.2.3.4/24`) rejects the whole input.

use vstd::prelude::*;

verus! {

/// The value of `c` as a digit: `Some(0..=9)` for a decimal digit,
/// additionally `Some(10..=15)` for a hex letter when `hex` is set,
/// `None` for every other character.
pub open spec fn spec_digit(c: char, hex: bool) -> Option<int> {
    let u = c as u32;
    if 48 <= u && u <= 57 {
        Some((u - 48) as int)
    } else if hex && 97 <= u && u <= 102 {
        Some((u - 97 + 10) as int)
    } else if hex && 65 <= u && u <= 70 {
        Some((u - 65 + 10) as int)
    } else {
        None
    }
}

/// The first index at or after `i` that does not hold a digit (the end of the
/// greedy digit run starting at `i`).
pub open spec fn digit_run_end(s: Seq<char>, i: int, hex: bool) -> int
    decreases s.len() - i,
{
    if 0 <= i && i < s.len() && spec_digit(s[i], hex) is Some {
        digit_run_end(s, i + 1, hex)
    } else {
        i
    }
}

/// The numeric value of the digits `s[i..j]`, most significant first, in
/// base 16 when `hex` is set and base 10 otherwise.
pub open spec fn digits_val(s: Seq<char>, i: int, j: int, hex: bool) -> int
    decreases j - i,
{
    if i >= j {
        0
    } else {
        let d = spec_digit(s[j - 1], hex).unwrap();
        if hex {
            digits_val(s, i, j - 1, hex) * 16 + d
        } else {
            digits_val(s, i, j - 1, hex) * 10 + d
        }
    }
}

/// Reads a number starting at `i`: the greedy digit run, rejected when it is
/// empty, longer than `max_digits` (0 meaning no limit), written with a
/// leading zero where `allow_zero_prefix` is false, or worth more than `cap`.
/// On success: the value and the index just past the digits.
pub open spec fn spec_number(
    s: Seq<char>,
    i: int,
    hex: bool,
    max_digits: int,
    allow_zero_prefix: bool,
    cap: int,
) -> Option<(int, int)> {
    let j = digit_run_end(s, i, hex);
    if j <= i {
        None
    } else if max_digits > 0 && j - i > max_digits {
        None
    } else if !allow_zero_prefix && j - i > 1 && s[i] as u32 == 48 {
        None
    } else if digits_val(s, i, j, hex) > cap {
        None
    } else {
        Some((digits_val(s, i, j, hex), j))
    }
}

/// Executable form of [`spec_digit`].
pub fn digit_value(c: char, hex: bool) -> (r: Option<u8>)
    ensures
        (match r {
            Option::Some(v) => spec_digit(c, hex) == Some(v as int),
            Option::None => spec_digit(c, hex) is None,
        }),
{
    let u = c as u32;
    if 48 <= u && u <= 57 {
        Some((u - 48) as u8)
    } else if hex && 97 <= u && u <= 102 {
        Some((u - 97 + 10) as u8)
    } else if hex && 65 <= u && u <= 70 {
        Some((u - 65 + 10) as u8)
    } else {
        None
    }
}

/// Executable form of [`spec_number`]. `cap` stays small enough that the
/// accumulator cannot overflow.
pub fn read_number(
    s: &str,
    i: usize,
    len: usize,
    hex: bool,
    max_digits: usize,
    allow_zero_prefix: bool,
    cap: u32,
) -> (r: Option<(u32, usize)>)
    requires
        len == s@.len(),
        i <= len,
        cap <= 0xffff,
    ensures
        (match r {
            Option::Some((v, e)) => {
                &&& spec_number(s@, i as int, hex, max_digits as int, allow_zero_prefix, cap as int)
                    == Some((v as int, e as int))
                &&& i < e <= len
                &&& v <= cap
            },
            Option::None => spec_number(
                s@,
                i as int,
                hex,
                max_digits as int,
                allow_zero_prefix,
                cap as int,
            ) is None,
        }),
{
    let mut j: usize = i;
    let mut val: u32 = 0;
    let mut over: bool = false;
    loop
        invariant
            len == s@.len(),
            i <= j <= len,
            cap <= 0xffff,
            digit_run_end(s@, i as int, hex) == digit_run_end(s@, j as int, hex),
            !over ==> val == digits_val(s@, i as int, j as int, hex) && val <= cap,
            over ==> digits_val(s@, i as int, j as int, hex) > cap,
        ensures
            i <= j <= len,
            digit_run_end(s@, i as int, hex) == j as int,
            !over ==> val == digits_val(s@, i as int, j as int, hex) && val <= cap,
            over ==> digits_val(s@, i as int, j as int, hex) > cap,
        decreases len - j,
    {
        if j >= len {
            proof {
                assert(digit_run_end(s@, j as int, hex) == j as int);
            }
            break;
        }
        let c = s.get_char(j);
        match digit_value(c, hex) {
            Option::None => {
                proof {
                    assert(digit_run_end(s@, j as int, hex) == j as int);
                }
                break;
            },
            Option::Some(d) => {
                if !over {
                    let nv = if hex {
                        val * 16 + d as u32
                    } else {
                        val * 10 + d as u32
                    };
                    if nv > cap {
                        over = true;
                    } else {
                        val = nv;
                    }
                }
                j = j + 1;
            },
        }
    }
    if j == i {
        return None;
    }
    if max_digits > 0 && j - i > max_digits {
        return None;
    }
    if !allow_zero_prefix && j - i > 1 && s.get_char(i) as u32 == 48 {
        return None;
    }
    if over {
        return None;
    }
    Some((val, j))
}

/// One IPv4 octet: at most three decimal digits, no leading zero, at most 255.
pub open spec fn spec_octet(s: Seq<char>, i: int) -> Option<(int, int)> {
    spec_number(s, i, false, 3, false, 255)
}

/// An IPv4 address `a.b.c.d` starting at `i`: four octets separated by dots.
/// On success: the 32-bit value `a·2^24 + b·2^16 + c·2^8 + d` and the index
/// just past the last octet.
pub open spec fn spec_ipv4(s: Seq<char>, i: int) -> Option<(int, int)> {
    match spec_octet(s, i) {
        Option::None => None,
        Option::Some((a, i1)) => if i1 < s.len() && s[i1] as u32 == 46 {
            match spec_octet(s, i1 + 1) {
                Option::None => None,
                Option::Some((b, i2)) => if i2 < s.len() && s[i2] as u32 == 46 {
                    match spec_octet(s, i2 + 1) {
                        Option::None => None,
                        Option::Some((c, i3)) => if i3 < s.len() && s[i3] as u32 == 46 {
                            match spec_octet(s, i3 + 1) {
                                Option::None => None,
                                Option::Some((d, i4)) => Some(
                                    (a * 0x100_0000 + b * 0x1_0000 + c * 0x100 + d, i4),
                                ),
                            }
                        } else {
                            None
                        },
                    }
                } else {
                    None
                },
            }
        } else {
            None
        },
    }
}

/// Executable form of [`spec_ipv4`].
pub fn read_ipv4(s: &str, i: usize, len: usize) -> (r: Option<(u32, usize)>)
    requires
        len == s@.len(),
        i <= len,
    ensures
        (match r {
            Option::Some((v, e)) => spec_ipv4(s@, i as int) == Some((v as int, e as int)) && i < e
                <= len,
            Option::None => spec_ipv4(s@, i as int) is None,
        }),
{
    let (a, i1) = match read_number(s, i, len, false, 3, false, 255) {
        Option::None => {
            return None;
        },
        Option::Some(x) => x,
    };
    if !(i1 < len && s.get_char(i1) as u32 == 46) {
        return None;
    }
    let (b, i2) = match read_number(s, i1 + 1, len, false, 3, false, 255) {
        Option::None => {
            return None;
        },
        Option::Some(x) => x,
    };
    if !(i2 < len && s.get_char(i2) as u32 == 46) {
        return None;
    }
    let (c, i3) = match read_number(s, i2 + 1, len, false, 3, false, 255) {
        Option::None => {
            return None;
        },
        Option::Some(x) => x,
    };
    if !(i3 < len && s.get_char(i3) as u32 == 46) {
        return None;
    }
    let (d, i4) = match read_number(s, i3 + 1, len, false, 3, false, 255) {
        Option::None => {
            return None;
        },
        Option::Some(x) => x,
    };
    Some((a * 0x100_0000 + b * 0x1_0000 + c * 0x100 + d, i4))
}

/// A run of 16-bit groups starting at `i`, filling at most `slots` of the
/// eight group positions of an IPv6 address. Each group but the first is
/// preceded by one `:`. A group is four hex digits at most; where at least two
/// positions are free, a trailing embedded IPv4 address (`::ffff:1.2.3.4`)
/// may take two positions instead and ends the run.
///
/// Returns the groups read, the index just past them (a trailing separator
/// whose group failed is not consumed), and whether the run ended in an
/// embedded IPv4 address.
pub open spec fn spec_groups(s: Seq<char>, i: int, first: bool, slots: int) -> (Seq<u16>, int, bool)
    decreases slots,
{
    if slots <= 0 {
        (Seq::<u16>::empty(), i, false)
    } else if !first && !(0 <= i && i < s.len() && s[i] as u32 == 58) {
        (Seq::<u16>::empty(), i, false)
    } else {
        let j = if first {
            i
        } else {
            i + 1
        };
        if slots >= 2 && spec_ipv4(s, j) is Some {
            let (v4, end) = spec_ipv4(s, j).unwrap();
            (seq![(v4 / 0x1_0000) as u16, (v4 % 0x1_0000) as u16], end, true)
        } else {
            match spec_number(s, j, true, 4, true, 0xffff) {
                Option::None => (Seq::<u16>::empty(), i, false),
                Option::Some((g, end)) => {
                    let (rest, rend, r4) = spec_groups(s, end, false, slots - 1);
                    (seq![g as u16] + rest, rend, r4)
                },
            }
        }
    }
}

/// The value of a sequence of 16-bit groups, most significant first.
pub open spec fn groups_val(gs: Seq<u16>) -> int
    decreases gs.len(),
{
    if gs.len() == 0 {
        0
    } else {
        groups_val(gs.drop_last()) * 0x1_0000 + gs.last()
    }
}

/// An IPv6 address starting at `i`: either eight groups outright, or some
/// head groups, a `::` standing for at least one zero group, and some tail
/// groups. An embedded IPv4 address that does not complete all eight groups
/// only counts inside the tail. On success: the 128-bit value and the index
/// just past the address.
pub open spec fn spec_ipv6(s: Seq<char>, i: int) -> Option<(int, int)> {
    let (head, hend, h4) = spec_groups(s, i, true, 8);
    if head.len() == 8 {
        Some((groups_val(head), hend))
    } else if h4 {
        None
    } else if hend + 2 <= s.len() && s[hend] as u32 == 58 && s[hend + 1] as u32 == 58 {
        let (tail, tend, t4) = spec_groups(s, hend + 2, true, 8 - head.len() - 1);
        Some(
            (
                groups_val(
                    head + Seq::new((8 - head.len() - tail.len()) as nat, |k: int| 0u16) + tail,
                ),
                tend,
            ),
        )
    } else {
        None
    }
}

/// Executable form of [`spec_groups`].
pub fn read_groups(s: &str, i: usize, len: usize, first: bool, slots: usize) -> (r: (
    Vec<u16>,
    usize,
    bool,
))
    requires
        len == s@.len(),
        i <= len,
        slots <= 8,
    ensures
        ({
            let (gs, end, u4) = spec_groups(s@, i as int, first, slots as int);
            &&& r.0@ == gs
            &&& r.1 == end
            &&& r.2 == u4
            &&& i <= r.1 <= len
            &&& r.0.len() <= slots
        }),
    decreases slots,
{
    if slots == 0 {
        let v: Vec<u16> = Vec::new();
        return (v, i, false);
    }
    let j: usize;
    if first {
        j = i;
    } else {
        if !(i < len && s.get_char(i) as u32 == 58) {
            let v: Vec<u16> = Vec::new();
            return (v, i, false);
        }
        j = i + 1;
    }
    if slots >= 2 {
        match read_ipv4(s, j, len) {
            Option::Some((v4, end)) => {
                let mut v: Vec<u16> = Vec::new();
                v.push((v4 / 0x1_0000) as u16);
                v.push((v4 % 0x1_0000) as u16);
                proof {
                    assert(v@ =~= seq![(v4 / 0x1_0000) as u16, (v4 % 0x1_0000) as u16]);
                }
                return (v, end, true);
            },
            Option::None => {},
        }
    }
    match read_number(s, j, len, true, 4, true, 0xffff) {
        Option::None => {
            let v: Vec<u16> = Vec::new();
            (v, i, false)
        },
        Option::Some((g, end)) => {
            let r = read_groups(s, end, len, false, slots - 1);
            let mut rest = r.0;
            let rend = r.1;
            let r4 = r.2;
            let mut v: Vec<u16> = Vec::new();
            v.push(g as u16);
            v.append(&mut rest);
            proof {
                let (gs_rest, _, _) = spec_groups(s@, end as int, false, slots as int - 1);
                assert(v@ =~= seq![g as u16] + gs_rest);
            }
            (v, rend, r4)
        },
    }
}

/// The value of eight groups as one 128-bit integer.
fn combine8(gs: &Vec<u16>) -> (v: u128)
    requires
        gs.len() == 8,
    ensures
        v as int == groups_val(gs@),
{
    let v: u128 = (((((((gs[0] as u128) * 0x1_0000 + gs[1] as u128) * 0x1_0000 + gs[2] as u128)
        * 0x1_0000 + gs[3] as u128) * 0x1_0000 + gs[4] as u128) * 0x1_0000 + gs[5] as u128)
        * 0x1_0000 + gs[6] as u128) * 0x1_0000 + gs[7] as u128;
    proof {
        reveal_with_fuel(groups_val, 9);
        assert(gs@.drop_last() =~= gs@.subrange(0, 7));
        assert(gs@.subrange(0, 7).drop_last() =~= gs@.subrange(0, 6));
        assert(gs@.subrange(0, 6).drop_last() =~= gs@.subrange(0, 5));
        assert(gs@.subrange(0, 5).drop_last() =~= gs@.subrange(0, 4));
        assert(gs@.subrange(0, 4).drop_last() =~= gs@.subrange(0, 3));
        assert(gs@.subrange(0, 3).drop_last() =~= gs@.subrange(0, 2));
        assert(gs@.subrange(0, 2).drop_last() =~= gs@.subrange(0, 1));
        assert(gs@.subrange(0, 1).drop_last() =~= gs@.subrange(0, 0));
    }
    v
}

/// Executable form of [`spec_ipv6`].
pub fn read_ipv6(s: &str, i: usize, len: usize) -> (r: Option<(u128, usize)>)
    requires
        len == s@.len(),
        i <= len,
    ensures
        (match r {
            Option::Some((v, e)) => spec_ipv6(s@, i as int) == Some((v as int, e as int)) && i <= e
                <= len,
            Option::None => spec_ipv6(s@, i as int) is None,
        }),
{
    let hr = read_groups(s, i, len, true, 8);
    let head = hr.0;
    let hend = hr.1;
    let h4 = hr.2;
    if head.len() == 8 {
        let v = combine8(&head);
        return Some((v, hend));
    }
    if h4 {
        return None;
    }
    if hend < len && hend + 1 < len && s.get_char(hend) as u32 == 58 && s.get_char(hend + 1) as u32
        == 58 {
        let slots = 8 - head.len() - 1;
        let tr = read_groups(s, hend + 2, len, true, slots);
        let tail = tr.0;
        let tend = tr.1;
        let ghost head_seq = head@;
        let ghost tail_seq = tail@;
        let zeros = 8 - (head.len() + tail.len());
        let mut full = head;
        let mut k: usize = 0;
        while k < zeros
            invariant
                k <= zeros,
                full@ == head_seq + Seq::new(k as nat, |q: int| 0u16),
            decreases zeros - k,
        {
            full.push(0);
            proof {
                assert(head_seq + Seq::new(k as nat, |q: int| 0u16) + seq![0u16] =~= head_seq
                    + Seq::new((k + 1) as nat, |q: int| 0u16));
            }
            k = k + 1;
        }
        let mut tail_moved = tail;
        full.append(&mut tail_moved);
        proof {
            assert(full@ =~= head_seq + Seq::new(zeros as nat, |q: int| 0u16) + tail_seq);
        }
        let v = combine8(&full);
        return Some((v, tend));
    }
    None
}

} // verus!
