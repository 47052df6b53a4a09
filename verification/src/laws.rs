//! General properties of the filter, stated and proved once and for all.
//!
//! Each law is phrased over [`list_denies`], the meaning of a pattern list;
//! [`Blacklist::from_iter`] guarantees that a built filter denies exactly
//! what `list_denies` says of its pattern list, so every law below carries
//! over to built filters unchanged.

use vstd::prelude::*;

use crate::addr::{spec_canonical, spec_ipv4_mapped, IpAddr, SocketAddr};
use crate::filter::{list_denies, pattern_denies};
use crate::grammar::{
    digit_run_end, digits_val, spec_digit, spec_groups, spec_ipv4, spec_ipv6, spec_number,
    spec_octet,
};
use crate::pattern::{spec_ipaddr, spec_parse_pattern, PatternAddr};

verus! {

/// The digit run starting inside the string ends inside the string.
proof fn lemma_run_bounds(s: Seq<char>, i: int, hex: bool)
    requires
        0 <= i <= s.len(),
    ensures
        i <= digit_run_end(s, i, hex) <= s.len(),
    decreases s.len() - i,
{
    if i < s.len() && spec_digit(s[i], hex) is Some {
        lemma_run_bounds(s, i + 1, hex);
    }
}

/// A digit string's value is never negative.
proof fn lemma_digits_nonneg(s: Seq<char>, i: int, j: int, hex: bool)
    requires
        forall|w: int| i <= w < j ==> spec_digit(s[w], hex) is Some,
    ensures
        digits_val(s, i, j, hex) >= 0,
    decreases j - i,
{
    if i < j {
        lemma_digits_nonneg(s, i, j - 1, hex);
    }
}

/// Putting a prefix before the string moves a digit run without changing it.
proof fn lemma_run_shift(t: Seq<char>, s: Seq<char>, i: int, hex: bool)
    requires
        0 <= i <= s.len(),
    ensures
        digit_run_end(t + s, t.len() + i, hex) == t.len() + digit_run_end(s, i, hex),
    decreases s.len() - i,
{
    if i < s.len() {
        assert((t + s)[t.len() + i] == s[i]);
        if spec_digit(s[i], hex) is Some {
            lemma_run_shift(t, s, i + 1, hex);
        }
    }
}

/// Putting a prefix before the string leaves a digit string's value as it is.
proof fn lemma_digits_shift(t: Seq<char>, s: Seq<char>, i: int, j: int, hex: bool)
    requires
        0 <= i <= j,
        j <= s.len(),
    ensures
        digits_val(t + s, t.len() + i, t.len() + j, hex) == digits_val(s, i, j, hex),
    decreases j - i,
{
    if i < j {
        assert((t + s)[t.len() + j - 1] == s[j - 1]);
        lemma_digits_shift(t, s, i, j - 1, hex);
    }
}

/// Putting a prefix before the string moves a number read without changing
/// its outcome.
proof fn lemma_number_shift(
    t: Seq<char>,
    s: Seq<char>,
    i: int,
    hex: bool,
    max_digits: int,
    allow_zero_prefix: bool,
    cap: int,
)
    requires
        0 <= i <= s.len(),
    ensures
        (match spec_number(s, i, hex, max_digits, allow_zero_prefix, cap) {
            Option::Some((v, e)) => spec_number(
                t + s,
                t.len() + i,
                hex,
                max_digits,
                allow_zero_prefix,
                cap,
            ) == Some((v, t.len() + e)),
            Option::None => spec_number(
                t + s,
                t.len() + i,
                hex,
                max_digits,
                allow_zero_prefix,
                cap,
            ) is None,
        }),
{
    lemma_run_bounds(s, i, hex);
    lemma_run_shift(t, s, i, hex);
    let j = digit_run_end(s, i, hex);
    lemma_digits_shift(t, s, i, j, hex);
    if j > i {
        assert((t + s)[t.len() + i] == s[i]);
    }
}

/// Putting a prefix before a valid IPv4 string moves the parse without
/// changing the address read.
proof fn lemma_ipv4_shift(t: Seq<char>, s: Seq<char>)
    requires
        spec_ipv4(s, 0) is Some,
    ensures
        spec_ipv4(t + s, t.len() as int) == Some(
            (spec_ipv4(s, 0).unwrap().0, t.len() + spec_ipv4(s, 0).unwrap().1),
        ),
{
    let (a, i1) = spec_octet(s, 0).unwrap();
    lemma_number_shift(t, s, 0, false, 3, false, 255);
    assert((t + s)[t.len() + i1] == s[i1]);
    let (b, i2) = spec_octet(s, i1 + 1).unwrap();
    lemma_run_bounds(s, i1 + 1, false);
    lemma_number_shift(t, s, i1 + 1, false, 3, false, 255);
    assert((t + s)[t.len() + i2] == s[i2]);
    let (c, i3) = spec_octet(s, i2 + 1).unwrap();
    lemma_run_bounds(s, i2 + 1, false);
    lemma_number_shift(t, s, i2 + 1, false, 3, false, 255);
    assert((t + s)[t.len() + i3] == s[i3]);
    lemma_run_bounds(s, i3 + 1, false);
    lemma_number_shift(t, s, i3 + 1, false, 3, false, 255);
}

/// A parsed IPv4 address fits in 32 bits.
proof fn lemma_ipv4_value_bounds(s: Seq<char>, i: int)
    requires
        spec_ipv4(s, i) is Some,
    ensures
        0 <= spec_ipv4(s, i).unwrap().0 <= 0xffff_ffff,
{
    let (a, i1) = spec_octet(s, i).unwrap();
    let (b, i2) = spec_octet(s, i1 + 1).unwrap();
    let (c, i3) = spec_octet(s, i2 + 1).unwrap();
    let (d, i4) = spec_octet(s, i3 + 1).unwrap();
    lemma_octet_bounds(s, i);
    lemma_octet_bounds(s, i1 + 1);
    lemma_octet_bounds(s, i2 + 1);
    lemma_octet_bounds(s, i3 + 1);
}

/// A parsed octet lies between 0 and 255.
proof fn lemma_octet_bounds(s: Seq<char>, i: int)
    requires
        spec_octet(s, i) is Some,
    ensures
        0 <= spec_octet(s, i).unwrap().0 <= 255,
{
    let j = digit_run_end(s, i, false);
    lemma_run_digits(s, i, false);
    lemma_digits_nonneg(s, i, j, false);
}

/// Every character of a digit run is a digit.
proof fn lemma_run_digits(s: Seq<char>, i: int, hex: bool)
    requires
        0 <= i,
    ensures
        forall|w: int|
            i <= w < digit_run_end(s, i, hex) ==> spec_digit(#[trigger] s[w], hex) is Some,
    decreases s.len() - i,
{
    if i < s.len() && spec_digit(s[i], hex) is Some {
        lemma_run_digits(s, i + 1, hex);
    }
}

/// The value of exactly eight groups, written out.
proof fn lemma_groups_val8(gs: Seq<u16>)
    requires
        gs.len() == 8,
    ensures
        crate::grammar::groups_val(gs) == ((((((gs[0] * 0x1_0000 + gs[1]) * 0x1_0000 + gs[2])
            * 0x1_0000 + gs[3]) * 0x1_0000 + gs[4]) * 0x1_0000 + gs[5]) * 0x1_0000 + gs[6])
            * 0x1_0000 + gs[7],
{
    reveal_with_fuel(crate::grammar::groups_val, 9);
    assert(gs.drop_last() =~= gs.subrange(0, 7));
    assert(gs.subrange(0, 7).drop_last() =~= gs.subrange(0, 6));
    assert(gs.subrange(0, 6).drop_last() =~= gs.subrange(0, 5));
    assert(gs.subrange(0, 5).drop_last() =~= gs.subrange(0, 4));
    assert(gs.subrange(0, 4).drop_last() =~= gs.subrange(0, 3));
    assert(gs.subrange(0, 3).drop_last() =~= gs.subrange(0, 2));
    assert(gs.subrange(0, 2).drop_last() =~= gs.subrange(0, 1));
    assert(gs.subrange(0, 1).drop_last() =~= gs.subrange(0, 0));
}

/// A string of the shape `::ffff:` followed by a whole valid IPv4 address is
/// a whole valid IPv6 address worth the IPv4-mapped embedding of it.
#[verifier::rlimit(100)]
proof fn lemma_mapped_form_value(s: Seq<char>, v4: int)
    requires
        s.len() >= 7,
        s[0] == ':' && s[1] == ':',
        s[2] == 'f' && s[3] == 'f' && s[4] == 'f' && s[5] == 'f',
        s[6] == ':',
        spec_ipv4(s, 7) == Some((v4, s.len() as int)),
        0 <= v4 <= 0xffff_ffff,
    ensures
        spec_ipv4(s, 0) is None,
        spec_ipv6(s, 0) == Some((0xffff_0000_0000 + v4, s.len() as int)),
{
    let hi = (v4 / 0x1_0000) as u16;
    let lo = (v4 % 0x1_0000) as u16;

    // a `:` starts no number of either base, so no address starts at 0
    assert(digit_run_end(s, 0, false) == 0);
    assert(digit_run_end(s, 0, true) == 0);
    assert(spec_octet(s, 0) is None);
    assert(spec_ipv4(s, 0) is None);
    assert(spec_number(s, 0, true, 4, true, 0xffff) is None);
    let hd = spec_groups(s, 0, true, 8);
    assert(hd.0 =~= Seq::<u16>::empty());
    assert(hd.1 == 0 && hd.2 == false);

    // the `ffff` group: no decimal read, a four-digit hex read
    assert(digit_run_end(s, 2, false) == 2);
    assert(spec_octet(s, 2) is None);
    assert(spec_ipv4(s, 2) is None);
    assert(spec_digit('f', true) == Some(15int));
    assert(digit_run_end(s, 6, true) == 6);
    assert(digit_run_end(s, 5, true) == 6);
    assert(digit_run_end(s, 4, true) == 6);
    assert(digit_run_end(s, 3, true) == 6);
    assert(digit_run_end(s, 2, true) == 6);
    assert(digits_val(s, 2, 2, true) == 0);
    assert(digits_val(s, 2, 3, true) == 15);
    assert(digits_val(s, 2, 4, true) == 255);
    assert(digits_val(s, 2, 5, true) == 4095);
    assert(digits_val(s, 2, 6, true) == 65535);
    assert(spec_number(s, 2, true, 4, true, 0xffff) == Some((65535int, 6int)));

    // after it, the embedded IPv4 address fills the last two groups
    let sub = spec_groups(s, 6, false, 6);
    assert(sub.0 =~= seq![hi, lo]);
    assert(sub.1 == s.len() && sub.2 == true);
    let tl = spec_groups(s, 2, true, 7);
    assert(tl.0 =~= seq![0xffffu16, hi, lo]);
    assert(tl.1 == s.len() && tl.2 == true);

    // the whole string is `::` then the tail groups
    let gs = hd.0 + Seq::new((8 - hd.0.len() - tl.0.len()) as nat, |k: int| 0u16) + tl.0;
    assert(gs =~= seq![0u16, 0u16, 0u16, 0u16, 0u16, 0xffffu16, hi, lo]);
    lemma_groups_val8(gs);
    vstd::arithmetic::div_mod::lemma_fundamental_div_mod(v4, 0x1_0000);
    assert(0 <= v4 / 0x1_0000 <= 0xffff) by {
        vstd::arithmetic::div_mod::lemma_div_is_ordered(v4, 0xffff_ffff, 0x1_0000);
        vstd::arithmetic::div_mod::lemma_div_pos_is_pos(v4, 0x1_0000);
    }
    assert(crate::grammar::groups_val(gs) == 0xffff_0000_0000 + v4);
    assert(spec_ipv6(s, 0) == Some((0xffff_0000_0000 + v4, s.len() as int)));
}

/// For every valid IPv4 pattern string `a.b.c.d`, the IPv4-mapped IPv6
/// spelling of the same host — `::ffff:` put before it — parses to the very
/// same canonical address, so neither spelling slips past a rule written in
/// the other.
#[verifier::rlimit(100)]
pub proof fn lemma_parse_mapped_text_equal(s4: Seq<char>)
    requires
        spec_ipv4(s4, 0) is Some,
        spec_ipv4(s4, 0).unwrap().1 == s4.len(),
    ensures
        spec_parse_pattern(seq![':', ':', 'f', 'f', 'f', 'f', ':'] + s4) == spec_parse_pattern(
            s4,
        ),
        spec_parse_pattern(s4) == Some(
            PatternAddr::Ip((0xffff_0000_0000 + spec_ipv4(s4, 0).unwrap().0) as u128),
        ),
{
    reveal(spec_parse_pattern);
    let t = seq![':', ':', 'f', 'f', 'f', 'f', ':'];
    let s6 = t + s4;
    let v4 = spec_ipv4(s4, 0).unwrap().0;
    lemma_ipv4_value_bounds(s4, 0);
    lemma_ipv4_shift(t, s4);

    // the prefix, character by character
    assert(s6.len() == 7 + s4.len());
    assert(s6[0] == ':');
    assert(s6[1] == ':');
    assert(s6[2] == 'f');
    assert(s6[3] == 'f');
    assert(s6[4] == 'f');
    assert(s6[5] == 'f');
    assert(s6[6] == ':');
    assert(spec_ipv4(s6, 7) == Some((v4, s6.len() as int)));

    lemma_mapped_form_value(s6, v4);

    // both spellings name the same canonical address
    assert(spec_ipaddr(s6) == Some((0xffff_0000_0000 + v4) as u128));
    assert(spec_ipaddr(s4) == Some((0xffff_0000_0000 + v4) as u128));
}

/// A rule naming a bare IPv4 address denies every port on it, and denies the
/// IPv4-mapped IPv6 presentation of the same host just as well: the mapping
/// cannot be used to slip past a whole-address rule.
pub proof fn lemma_ip_rule_denies_both_families(
    s: Seq<char>,
    a: u8,
    b: u8,
    c: u8,
    d: u8,
    p: u16,
)
    requires
        spec_parse_pattern(s) == Some(PatternAddr::Ip(spec_ipv4_mapped(a, b, c, d))),
    ensures
        list_denies(seq![s], SocketAddr { ip: IpAddr::V4(a, b, c, d), port: p }),
        list_denies(seq![s], SocketAddr { ip: IpAddr::V6(spec_ipv4_mapped(a, b, c, d)), port: p }),
{
    let a4 = SocketAddr { ip: IpAddr::V4(a, b, c, d), port: p };
    let a6 = SocketAddr { ip: IpAddr::V6(spec_ipv4_mapped(a, b, c, d)), port: p };
    assert(seq![s][0] == s);
    assert(pattern_denies(spec_parse_pattern(seq![s][0]), a4));
    assert(pattern_denies(spec_parse_pattern(seq![s][0]), a6));
}

/// A rule naming an address with one port denies exactly that endpoint:
/// the named port on the named address, in either presentation, and no other
/// port.
pub proof fn lemma_ip_port_rule_exact(s: Seq<char>, ip: u128, p: u16, q: SocketAddr)
    requires
        spec_parse_pattern(s) == Some(PatternAddr::IpPort(ip, p)),
    ensures
        list_denies(seq![s], q) <==> (spec_canonical(q.ip) == ip && q.port == p),
{
    assert(seq![s][0] == s);
    if spec_canonical(q.ip) == ip && q.port == p {
        assert(pattern_denies(spec_parse_pattern(seq![s][0]), q));
    }
}

/// Building is commutative: two pattern lists holding the same patterns —
/// in whatever order, with whatever repetition — deny the same endpoints.
pub proof fn lemma_same_patterns_same_denies(ps1: Seq<Seq<char>>, ps2: Seq<Seq<char>>, a: SocketAddr)
    requires
        forall|s: Seq<char>|
            #![trigger ps1.contains(s)]
            #![trigger ps2.contains(s)]
            ps1.contains(s) <==> ps2.contains(s),
    ensures
        list_denies(ps1, a) == list_denies(ps2, a),
{
    if list_denies(ps1, a) {
        let j = choose|j: int| 0 <= j < ps1.len() && pattern_denies(spec_parse_pattern(ps1[j]), a);
        assert(ps1.contains(ps1[j]));
        let k = choose|k: int| 0 <= k < ps2.len() && ps2[k] == ps1[j];
        assert(pattern_denies(spec_parse_pattern(ps2[k]), a));
    }
    if list_denies(ps2, a) {
        let j = choose|j: int| 0 <= j < ps2.len() && pattern_denies(spec_parse_pattern(ps2[j]), a);
        assert(ps2.contains(ps2[j]));
        let k = choose|k: int| 0 <= k < ps1.len() && ps1[k] == ps2[j];
        assert(pattern_denies(spec_parse_pattern(ps1[k]), a));
    }
}

/// A pattern that does not parse changes nothing: the list with it denies
/// exactly what the list without it denies.
pub proof fn lemma_invalid_entry_ignored(ps: Seq<Seq<char>>, i: int, a: SocketAddr)
    requires
        0 <= i < ps.len(),
        spec_parse_pattern(ps[i]) is None,
    ensures
        list_denies(ps, a) <==> list_denies(ps.remove(i), a),
{
    let t = ps.remove(i);
    ps.remove_ensures(i);
    if list_denies(ps, a) {
        let j = choose|j: int| 0 <= j < ps.len() && pattern_denies(spec_parse_pattern(ps[j]), a);
        if j < i {
            assert(t[j] == ps[j]);
            assert(pattern_denies(spec_parse_pattern(t[j]), a));
        } else {
            assert(j > i);
            assert(t[j - 1] == ps[j]);
            assert(pattern_denies(spec_parse_pattern(t[j - 1]), a));
        }
    }
    if list_denies(t, a) {
        let j = choose|j: int| 0 <= j < t.len() && pattern_denies(spec_parse_pattern(t[j]), a);
        if j < i {
            assert(ps[j] == t[j]);
            assert(pattern_denies(spec_parse_pattern(ps[j]), a));
        } else {
            assert(ps[j + 1] == t[j]);
            assert(pattern_denies(spec_parse_pattern(ps[j + 1]), a));
        }
    }
}

/// A repeated pattern changes nothing: the list with the repeat denies
/// exactly what the list without it denies, so applying one pattern twice
/// builds the same behaviour as applying it once.
pub proof fn lemma_duplicate_pattern_ignored(ps: Seq<Seq<char>>, i: int, j: int, a: SocketAddr)
    requires
        0 <= i < j < ps.len(),
        ps[i] == ps[j],
    ensures
        list_denies(ps, a) <==> list_denies(ps.remove(j), a),
{
    let t = ps.remove(j);
    ps.remove_ensures(j);
    if list_denies(ps, a) {
        let w = choose|w: int| 0 <= w < ps.len() && pattern_denies(spec_parse_pattern(ps[w]), a);
        if w < j {
            assert(t[w] == ps[w]);
            assert(pattern_denies(spec_parse_pattern(t[w]), a));
        } else if w == j {
            assert(t[i] == ps[i]);
            assert(pattern_denies(spec_parse_pattern(t[i]), a));
        } else {
            assert(t[w - 1] == ps[w]);
            assert(pattern_denies(spec_parse_pattern(t[w - 1]), a));
        }
    }
    if list_denies(t, a) {
        let w = choose|w: int| 0 <= w < t.len() && pattern_denies(spec_parse_pattern(t[w]), a);
        if w < j {
            assert(ps[w] == t[w]);
            assert(pattern_denies(spec_parse_pattern(ps[w]), a));
        } else {
            assert(ps[w + 1] == t[w]);
            assert(pattern_denies(spec_parse_pattern(ps[w + 1]), a));
        }
    }
}

} // verus!
