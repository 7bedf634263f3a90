//! IP addresses as plain numeric parts, with their textual form.
//!
//! Version 4 addresses render as dotted decimal without leading zeros.
//! Version 6 addresses render in lowercase hexadecimal groups without
//! leading zeros, with the leftmost longest run of two or more zero
//! groups compressed to `::`, and with the version-4-mapped form
//! (`::ffff:` followed by dotted decimal) when it applies.
//!
//! The parser accepts the usual textual forms: dotted decimal octets of
//! one to three digits without leading zeros; and hexadecimal groups of
//! one to four digits in either case, leading zeros allowed, with one
//! optional `::` standing for one or more zero groups, and an optional
//! embedded dotted-decimal tail standing for the last two groups.

use vstd::prelude::*;
use vstd::string::*;

verus! {

/// An IP address: four octets for version 4, eight 16-bit groups for
/// version 6.
#[derive(Debug, Clone, Copy, PartialEq, Eq, Hash)]
pub enum IpAddress {
    V4(u8, u8, u8, u8),
    V6(u16, u16, u16, u16, u16, u16, u16, u16),
}

pub open spec fn digit_char(d: int) -> char {
    if d == 0 {
        '0'
    } else if d == 1 {
        '1'
    } else if d == 2 {
        '2'
    } else if d == 3 {
        '3'
    } else if d == 4 {
        '4'
    } else if d == 5 {
        '5'
    } else if d == 6 {
        '6'
    } else if d == 7 {
        '7'
    } else if d == 8 {
        '8'
    } else {
        '9'
    }
}

pub open spec fn hex_char(d: int) -> char {
    if d < 10 {
        digit_char(d)
    } else if d == 10 {
        'a'
    } else if d == 11 {
        'b'
    } else if d == 12 {
        'c'
    } else if d == 13 {
        'd'
    } else if d == 14 {
        'e'
    } else {
        'f'
    }
}

/// Decimal text of an octet, without leading zeros.
pub open spec fn spec_dec_u8(n: u8) -> Seq<char> {
    if n < 10 {
        seq![digit_char(n as int)]
    } else if n < 100 {
        seq![digit_char(n as int / 10), digit_char(n as int % 10)]
    } else {
        seq![
            digit_char(n as int / 100),
            digit_char((n as int / 10) % 10),
            digit_char(n as int % 10),
        ]
    }
}

/// Lowercase hexadecimal text of a 16-bit group, without leading zeros.
pub open spec fn spec_hex_u16(n: u16) -> Seq<char> {
    if n < 0x10 {
        seq![hex_char(n as int)]
    } else if n < 0x100 {
        seq![hex_char(n as int / 0x10), hex_char(n as int % 0x10)]
    } else if n < 0x1000 {
        seq![
            hex_char(n as int / 0x100),
            hex_char((n as int / 0x10) % 0x10),
            hex_char(n as int % 0x10),
        ]
    } else {
        seq![
            hex_char(n as int / 0x1000),
            hex_char((n as int / 0x100) % 0x10),
            hex_char((n as int / 0x10) % 0x10),
            hex_char(n as int % 0x10),
        ]
    }
}

/// Length of the run of zero groups starting at `i`.
pub open spec fn zero_run_len(s: Seq<u16>, i: int) -> int
    decreases s.len() - i,
{
    if i < 0 || i >= s.len() {
        0
    } else if s[i] == 0 {
        1 + zero_run_len(s, i + 1)
    } else {
        0
    }
}

/// The leftmost longest zero run at or after `i`, given the best start
/// and length seen so far; a later run displaces an earlier one only
/// when strictly longer.
pub open spec fn best_zero_run_from(s: Seq<u16>, i: int, bs: int, bl: int) -> (int, int)
    decreases s.len() - i,
{
    if i < 0 || i >= s.len() {
        (bs, bl)
    } else {
        let l = zero_run_len(s, i);
        if l > bl {
            best_zero_run_from(s, i + 1, i, l)
        } else {
            best_zero_run_from(s, i + 1, bs, bl)
        }
    }
}

/// The groups `s[i..j]` in lowercase hexadecimal, joined by `:`.
pub open spec fn spec_join_groups(s: Seq<u16>, i: int, j: int) -> Seq<char>
    decreases j - i,
{
    if j <= i {
        Seq::empty()
    } else if j == i + 1 {
        spec_hex_u16(s[i])
    } else {
        spec_join_groups(s, i, j - 1) + seq![':'] + spec_hex_u16(s[j - 1])
    }
}

/// A version-4 address carried in the low two groups of a version-6
/// address, marked by `ffff` in the sixth group.
pub open spec fn is_v4_mapped(s: Seq<u16>) -> bool {
    &&& s.len() == 8
    &&& s[0] == 0
    &&& s[1] == 0
    &&& s[2] == 0
    &&& s[3] == 0
    &&& s[4] == 0
    &&& s[5] == 0xffff
}

/// The textual form of eight version-6 groups: the mapped form when it
/// applies, else groups joined by `:` with the leftmost longest run of
/// two or more zero groups compressed to `::`.
pub open spec fn spec_v6_text(s: Seq<u16>) -> Seq<char> {
    if is_v4_mapped(s) {
        seq![':', ':', 'f', 'f', 'f', 'f', ':'] + spec_dec_u8((s[6] / 256) as u8) + seq!['.']
            + spec_dec_u8((s[6] % 256) as u8) + seq!['.'] + spec_dec_u8((s[7] / 256) as u8)
            + seq!['.'] + spec_dec_u8((s[7] % 256) as u8)
    } else {
        let br = best_zero_run_from(s, 0, 0, 0);
        if br.1 >= 2 {
            spec_join_groups(s, 0, br.0) + seq![':', ':'] + spec_join_groups(s, br.0 + br.1, 8)
        } else {
            spec_join_groups(s, 0, 8)
        }
    }
}

/// The textual form of an address, the batch sort's primary key.
pub open spec fn spec_ip_text(ip: IpAddress) -> Seq<char> {
    match ip {
        IpAddress::V4(a, b, c, d) => spec_dec_u8(a) + seq!['.'] + spec_dec_u8(b) + seq!['.']
            + spec_dec_u8(c) + seq!['.'] + spec_dec_u8(d),
        IpAddress::V6(g0, g1, g2, g3, g4, g5, g6, g7) => spec_v6_text(
            seq![g0, g1, g2, g3, g4, g5, g6, g7],
        ),
    }
}

fn digit_str(d: u8) -> (r: &'static str)
    requires
        d < 10,
    ensures
        r@ == seq![digit_char(d as int)],
{
    proof {
        reveal_strlit("0");
        reveal_strlit("1");
        reveal_strlit("2");
        reveal_strlit("3");
        reveal_strlit("4");
        reveal_strlit("5");
        reveal_strlit("6");
        reveal_strlit("7");
        reveal_strlit("8");
        reveal_strlit("9");
    }
    let r: &'static str = match d {
        0 => "0",
        1 => "1",
        2 => "2",
        3 => "3",
        4 => "4",
        5 => "5",
        6 => "6",
        7 => "7",
        8 => "8",
        _ => "9",
    };
    proof {
        assert(r@ =~= seq![digit_char(d as int)]);
    }
    r
}

fn hex_str(d: u16) -> (r: &'static str)
    requires
        d < 0x10,
    ensures
        r@ == seq![hex_char(d as int)],
{
    if d < 10 {
        digit_str(d as u8)
    } else {
        proof {
            reveal_strlit("a");
            reveal_strlit("b");
            reveal_strlit("c");
            reveal_strlit("d");
            reveal_strlit("e");
            reveal_strlit("f");
        }
        let r: &'static str = match d {
            10 => "a",
            11 => "b",
            12 => "c",
            13 => "d",
            14 => "e",
            _ => "f",
        };
        proof {
            assert(r@ =~= seq![hex_char(d as int)]);
        }
        r
    }
}

fn dec_u8(n: u8) -> (s: String)
    ensures
        s@ == spec_dec_u8(n),
{
    if n < 10 {
        digit_str(n).to_owned()
    } else if n < 100 {
        let mut s = digit_str(n / 10).to_owned();
        s.append(digit_str(n % 10));
        proof {
            assert(s@ =~= spec_dec_u8(n));
        }
        s
    } else {
        let mut s = digit_str(n / 100).to_owned();
        s.append(digit_str((n / 10) % 10));
        s.append(digit_str(n % 10));
        proof {
            assert(s@ =~= spec_dec_u8(n));
        }
        s
    }
}

fn hex_u16(n: u16) -> (s: String)
    ensures
        s@ == spec_hex_u16(n),
{
    if n < 0x10 {
        hex_str(n).to_owned()
    } else if n < 0x100 {
        let mut s = hex_str(n / 0x10).to_owned();
        s.append(hex_str(n % 0x10));
        proof {
            assert(s@ =~= spec_hex_u16(n));
        }
        s
    } else if n < 0x1000 {
        let mut s = hex_str(n / 0x100).to_owned();
        s.append(hex_str((n / 0x10) % 0x10));
        s.append(hex_str(n % 0x10));
        proof {
            assert(s@ =~= spec_hex_u16(n));
        }
        s
    } else {
        let mut s = hex_str(n / 0x1000).to_owned();
        s.append(hex_str((n / 0x100) % 0x10));
        s.append(hex_str((n / 0x10) % 0x10));
        s.append(hex_str(n % 0x10));
        proof {
            assert(s@ =~= spec_hex_u16(n));
        }
        s
    }
}

fn zero_run_len_exec(v: &Vec<u16>, i: usize) -> (l: usize)
    requires
        i <= v@.len(),
    ensures
        l == zero_run_len(v@, i as int),
        l <= v@.len() - i,
{
    let mut j = i;
    while j < v.len() && v[j] == 0
        invariant
            i <= j <= v@.len(),
            zero_run_len(v@, i as int) == j - i + zero_run_len(v@, j as int),
        decreases v@.len() - j,
    {
        j = j + 1;
    }
    proof {
        assert(zero_run_len(v@, j as int) == 0);
    }
    j - i
}

fn best_zero_run_exec(v: &Vec<u16>) -> (r: (usize, usize))
    ensures
        (r.0 as int, r.1 as int) == best_zero_run_from(v@, 0, 0, 0),
        r.0 + r.1 <= v@.len(),
{
    let mut i: usize = 0;
    let mut bs: usize = 0;
    let mut bl: usize = 0;
    while i < v.len()
        invariant
            i <= v@.len(),
            bs + bl <= v@.len(),
            best_zero_run_from(v@, i as int, bs as int, bl as int) == best_zero_run_from(
                v@,
                0,
                0,
                0,
            ),
        decreases v@.len() - i,
    {
        let l = zero_run_len_exec(v, i);
        if l > bl {
            bs = i;
            bl = l;
        }
        i = i + 1;
    }
    (bs, bl)
}

fn join_groups_exec(v: &Vec<u16>, i: usize, j: usize) -> (s: String)
    requires
        i <= j <= v@.len(),
    ensures
        s@ == spec_join_groups(v@, i as int, j as int),
{
    let mut out = String::new();
    let mut k = i;
    proof {
        assert(out@ =~= spec_join_groups(v@, i as int, i as int));
    }
    while k < j
        invariant
            i <= k <= j <= v@.len(),
            out@ == spec_join_groups(v@, i as int, k as int),
        decreases j - k,
    {
        if k > i {
            proof {
                reveal_strlit(":");
            }
            out.append(":");
        }
        let h = hex_u16(v[k]);
        out.append(h.as_str());
        proof {
            assert(out@ =~= spec_join_groups(v@, i as int, k as int + 1));
        }
        k = k + 1;
    }
    out
}

/// Renders an address in its textual form.
pub fn format_ip(ip: &IpAddress) -> (s: String)
    ensures
        s@ == spec_ip_text(*ip),
{
    match ip {
        IpAddress::V4(a, b, c, d) => {
            proof {
                reveal_strlit(".");
            }
            let mut s = dec_u8(*a);
            s.append(".");
            let p = dec_u8(*b);
            s.append(p.as_str());
            s.append(".");
            let p = dec_u8(*c);
            s.append(p.as_str());
            s.append(".");
            let p = dec_u8(*d);
            s.append(p.as_str());
            proof {
                assert(s@ =~= spec_ip_text(*ip));
            }
            s
        },
        IpAddress::V6(g0, g1, g2, g3, g4, g5, g6, g7) => {
            let segs = vec![*g0, *g1, *g2, *g3, *g4, *g5, *g6, *g7];
            proof {
                assert(segs@ =~= seq![*g0, *g1, *g2, *g3, *g4, *g5, *g6, *g7]);
            }
            if segs[0] == 0 && segs[1] == 0 && segs[2] == 0 && segs[3] == 0 && segs[4] == 0
                && segs[5] == 0xffff {
                proof {
                    reveal_strlit("::ffff:");
                    reveal_strlit(".");
                }
                let mut s = String::new();
                s.append("::ffff:");
                let p = dec_u8((segs[6] / 256) as u8);
                s.append(p.as_str());
                s.append(".");
                let p = dec_u8((segs[6] % 256) as u8);
                s.append(p.as_str());
                s.append(".");
                let p = dec_u8((segs[7] / 256) as u8);
                s.append(p.as_str());
                s.append(".");
                let p = dec_u8((segs[7] % 256) as u8);
                s.append(p.as_str());
                proof {
                    assert(s@ =~= spec_ip_text(*ip));
                }
                s
            } else {
                let run = best_zero_run_exec(&segs);
                if run.1 >= 2 {
                    proof {
                        reveal_strlit(":");
                    }
                    let mut s = join_groups_exec(&segs, 0, run.0);
                    s.append(":");
                    s.append(":");
                    let t = join_groups_exec(&segs, run.0 + run.1, segs.len());
                    s.append(t.as_str());
                    proof {
                        assert(s@ =~= spec_ip_text(*ip));
                    }
                    s
                } else {
                    let s = join_groups_exec(&segs, 0, segs.len());
                    proof {
                        assert(s@ =~= spec_ip_text(*ip));
                    }
                    s
                }
            }
        },
    }
}

/// The length of the textual form, the sort's primary key.
pub fn ip_text_len(ip: &IpAddress) -> (n: usize)
    ensures
        n == spec_ip_text(*ip).len(),
{
    let s = format_ip(ip);
    s.as_str().unicode_len()
}

// Parsing textual forms back into addresses.

pub open spec fn is_dec_digit(c: char) -> bool {
    48 <= c as u32 <= 57
}

pub open spec fn digit_val(c: char) -> int {
    c as u32 - 48
}

/// A hexadecimal digit, in either case.
pub open spec fn is_hex_digit(c: char) -> bool {
    is_dec_digit(c) || (97 <= c as u32 <= 102) || (65 <= c as u32 <= 70)
}

pub open spec fn hex_digit_val(c: char) -> int {
    if is_dec_digit(c) {
        digit_val(c)
    } else if 97 <= c as u32 <= 102 {
        c as u32 - 87
    } else {
        c as u32 - 55
    }
}

/// First index at or after `i` holding no decimal digit.
pub open spec fn scan_digits(s: Seq<char>, i: int) -> int
    decreases s.len() - i,
{
    if i < 0 || i >= s.len() {
        i
    } else if is_dec_digit(s[i]) {
        scan_digits(s, i + 1)
    } else {
        i
    }
}

/// First index at or after `i` holding no hexadecimal digit.
pub open spec fn scan_hex(s: Seq<char>, i: int) -> int
    decreases s.len() - i,
{
    if i < 0 || i >= s.len() {
        i
    } else if is_hex_digit(s[i]) {
        scan_hex(s, i + 1)
    } else {
        i
    }
}

/// Value of the decimal digit run `s[i..j]`.
pub open spec fn dec_val(s: Seq<char>, i: int, j: int) -> int
    decreases j - i,
{
    if i >= j {
        0
    } else {
        dec_val(s, i, j - 1) * 10 + digit_val(s[j - 1])
    }
}

/// Value of the hexadecimal digit run `s[i..j]`.
pub open spec fn hex_val(s: Seq<char>, i: int, j: int) -> int
    decreases j - i,
{
    if i >= j {
        0
    } else {
        hex_val(s, i, j - 1) * 16 + hex_digit_val(s[j - 1])
    }
}

/// Reads one decimal octet at `pos`: one to three digits, no leading
/// zero, value at most 255. Yields the octet and the index after it.
pub open spec fn read_octet_at(s: Seq<char>, pos: int) -> Option<(u8, int)> {
    let e = scan_digits(s, pos);
    if pos < e <= pos + 3 && (e - pos > 1 ==> s[pos] != '0') && dec_val(s, pos, e) <= 255 {
        Option::Some((dec_val(s, pos, e) as u8, e))
    } else {
        Option::None
    }
}

/// Reads a dotted-decimal address at `pos`: four octets joined by `.`.
/// Yields the octets and the index after them.
pub open spec fn read_v4_at(s: Seq<char>, pos: int) -> Option<((u8, u8, u8, u8), int)> {
    match read_octet_at(s, pos) {
        Option::Some(o1) => if o1.1 < s.len() && s[o1.1] == '.' {
            match read_octet_at(s, o1.1 + 1) {
                Option::Some(o2) => if o2.1 < s.len() && s[o2.1] == '.' {
                    match read_octet_at(s, o2.1 + 1) {
                        Option::Some(o3) => if o3.1 < s.len() && s[o3.1] == '.' {
                            match read_octet_at(s, o3.1 + 1) {
                                Option::Some(o4) => Option::Some(
                                    ((o1.0, o2.0, o3.0, o4.0), o4.1),
                                ),
                                Option::None => Option::None,
                            }
                        } else {
                            Option::None
                        },
                        Option::None => Option::None,
                    }
                } else {
                    Option::None
                },
                Option::None => Option::None,
            }
        } else {
            Option::None
        },
        Option::None => Option::None,
    }
}

/// Reads one hexadecimal group at `pos`: one to four digits, either
/// case, leading zeros allowed. Yields the group and the index after it.
pub open spec fn read_hex_group(s: Seq<char>, pos: int) -> Option<(u16, int)> {
    let e = scan_hex(s, pos);
    if pos < e <= pos + 4 {
        Option::Some((hex_val(s, pos, e) as u16, e))
    } else {
        Option::None
    }
}

/// The high group an embedded dotted-decimal tail stands for.
pub open spec fn v4_hi(o: (u8, u8, u8, u8)) -> u16 {
    (o.0 * 256 + o.1) as u16
}

/// The low group an embedded dotted-decimal tail stands for.
pub open spec fn v4_lo(o: (u8, u8, u8, u8)) -> u16 {
    (o.2 * 256 + o.3) as u16
}

/// Reads up to `limit` groups at `pos`, each preceded by `:` except the
/// first when `first` holds. With two or more group slots left, an
/// embedded dotted-decimal tail may stand for the final two groups and
/// ends the run. Yields the groups read, the index after them (before
/// any unconsumed separator), and whether the run ended with an
/// embedded tail.
pub open spec fn read_groups(s: Seq<char>, pos: int, limit: int, first: bool) -> (
    Seq<u16>,
    int,
    bool,
)
    decreases limit,
{
    if limit <= 0 {
        (Seq::empty(), pos, false)
    } else {
        let p2 = if first {
            pos
        } else if 0 <= pos < s.len() && s[pos] == ':' {
            pos + 1
        } else {
            -1
        };
        if p2 < 0 {
            (Seq::empty(), pos, false)
        } else {
            let v4r = if limit >= 2 {
                read_v4_at(s, p2)
            } else {
                Option::None
            };
            match v4r {
                Option::Some(res) => (seq![v4_hi(res.0), v4_lo(res.0)], res.1, true),
                Option::None => match read_hex_group(s, p2) {
                    Option::Some(g) => {
                        let rest = read_groups(s, g.1, limit - 1, false);
                        (seq![g.0] + rest.0, rest.1, rest.2)
                    },
                    Option::None => (Seq::empty(), pos, false),
                },
            }
        }
    }
}

/// The version-4 parser: dotted decimal filling the whole text.
pub open spec fn spec_parse_ipv4(s: Seq<char>) -> Option<IpAddress> {
    match read_v4_at(s, 0) {
        Option::Some(res) => if res.1 == s.len() {
            Option::Some(IpAddress::V4(res.0.0, res.0.1, res.0.2, res.0.3))
        } else {
            Option::None
        },
        Option::None => Option::None,
    }
}

/// `n` zero groups.
pub open spec fn zero_groups(n: int) -> Seq<u16> {
    Seq::new(n as nat, |i: int| 0u16)
}

/// The version-6 parser: eight groups outright, or fewer groups around
/// one `::` standing for the missing zero groups, with an optional
/// embedded dotted-decimal tail; the text must be filled exactly. An
/// embedded tail may not stand before the `::`.
pub open spec fn spec_parse_ipv6(s: Seq<char>) -> Option<IpAddress> {
    let head = read_groups(s, 0, 8, true);
    if head.0.len() == 8 {
        if head.1 == s.len() {
            Option::Some(
                IpAddress::V6(
                    head.0[0],
                    head.0[1],
                    head.0[2],
                    head.0[3],
                    head.0[4],
                    head.0[5],
                    head.0[6],
                    head.0[7],
                ),
            )
        } else {
            Option::None
        }
    } else if head.2 {
        Option::None
    } else if head.1 + 1 < s.len() && s[head.1] == ':' && s[head.1 + 1] == ':' {
        let limit = 8 - head.0.len() - 1;
        let tail = read_groups(s, head.1 + 2, limit as int, true);
        if tail.1 == s.len() {
            let segs = head.0 + zero_groups(8 - head.0.len() - tail.0.len()) + tail.0;
            Option::Some(
                IpAddress::V6(
                    segs[0],
                    segs[1],
                    segs[2],
                    segs[3],
                    segs[4],
                    segs[5],
                    segs[6],
                    segs[7],
                ),
            )
        } else {
            Option::None
        }
    } else {
        Option::None
    }
}

/// The address parser: the version-4 form, else a version-6 form.
pub open spec fn spec_parse_ip(s: Seq<char>) -> Option<IpAddress> {
    if spec_parse_ipv4(s) is Some {
        spec_parse_ipv4(s)
    } else {
        spec_parse_ipv6(s)
    }
}

proof fn lemma_scan_digits(s: Seq<char>, i: int)
    requires
        0 <= i <= s.len(),
    ensures
        i <= scan_digits(s, i) <= s.len(),
        forall|k: int| i <= k < scan_digits(s, i) ==> is_dec_digit(s[k]),
        scan_digits(s, i) < s.len() ==> !is_dec_digit(s[scan_digits(s, i)]),
    decreases s.len() - i,
{
    if i < s.len() && is_dec_digit(s[i]) {
        lemma_scan_digits(s, i + 1);
    }
}

proof fn lemma_scan_hex(s: Seq<char>, i: int)
    requires
        0 <= i <= s.len(),
    ensures
        i <= scan_hex(s, i) <= s.len(),
        forall|k: int| i <= k < scan_hex(s, i) ==> is_hex_digit(s[k]),
        scan_hex(s, i) < s.len() ==> !is_hex_digit(s[scan_hex(s, i)]),
    decreases s.len() - i,
{
    if i < s.len() && is_hex_digit(s[i]) {
        lemma_scan_hex(s, i + 1);
    }
}

fn is_dec_digit_exec(c: char) -> (r: bool)
    ensures
        r == is_dec_digit(c),
{
    let v = c as u32;
    48 <= v && v <= 57
}

fn is_hex_digit_exec(c: char) -> (r: bool)
    ensures
        r == is_hex_digit(c),
{
    let v = c as u32;
    (48 <= v && v <= 57) || (97 <= v && v <= 102) || (65 <= v && v <= 70)
}

fn scan_digits_exec(s: &str, i: usize) -> (j: usize)
    requires
        i <= s@.len(),
    ensures
        j == scan_digits(s@, i as int),
        i <= j <= s@.len(),
{
    let n = s.unicode_len();
    let mut j = i;
    while j < n && is_dec_digit_exec(s.get_char(j))
        invariant
            i <= j <= n,
            n == s@.len(),
            scan_digits(s@, i as int) == scan_digits(s@, j as int),
        decreases n - j,
    {
        j = j + 1;
    }
    proof {
        assert(scan_digits(s@, j as int) == j);
        lemma_scan_digits(s@, i as int);
    }
    j
}

fn scan_hex_exec(s: &str, i: usize) -> (j: usize)
    requires
        i <= s@.len(),
    ensures
        j == scan_hex(s@, i as int),
        i <= j <= s@.len(),
{
    let n = s.unicode_len();
    let mut j = i;
    while j < n && is_hex_digit_exec(s.get_char(j))
        invariant
            i <= j <= n,
            n == s@.len(),
            scan_hex(s@, i as int) == scan_hex(s@, j as int),
        decreases n - j,
    {
        j = j + 1;
    }
    proof {
        assert(scan_hex(s@, j as int) == j);
        lemma_scan_hex(s@, i as int);
    }
    j
}

fn read_octet_at_exec(s: &str, pos: usize) -> (r: Option<(u8, usize)>)
    requires
        pos <= s@.len(),
    ensures
        r is Some <==> read_octet_at(s@, pos as int) is Some,
        r matches Some(p) ==> read_octet_at(s@, pos as int) == Some((p.0, p.1 as int)) && pos < p.1
            <= s@.len(),
{
    let e = scan_digits_exec(s, pos);
    proof {
        lemma_scan_digits(s@, pos as int);
    }
    let len = e - pos;
    if len == 0 || len > 3 {
        return None;
    }
    if len > 1 && s.get_char(pos) == '0' {
        return None;
    }
    let v: u32 = if len == 1 {
        s.get_char(pos) as u32 - 48
    } else if len == 2 {
        (s.get_char(pos) as u32 - 48) * 10 + (s.get_char(pos + 1) as u32 - 48)
    } else {
        (s.get_char(pos) as u32 - 48) * 100 + (s.get_char(pos + 1) as u32 - 48) * 10 + (s.get_char(
            pos + 2,
        ) as u32 - 48)
    };
    proof {
        assert(dec_val(s@, pos as int, pos as int) == 0);
        assert(dec_val(s@, pos as int, pos + 1) == digit_val(s@[pos as int]));
        if len >= 2 {
            assert(dec_val(s@, pos as int, pos + 2) == dec_val(s@, pos as int, pos + 1) * 10
                + digit_val(s@[pos + 1]));
        }
        if len >= 3 {
            assert(dec_val(s@, pos as int, pos + 3) == dec_val(s@, pos as int, pos + 2) * 10
                + digit_val(s@[pos + 2]));
        }
        assert(v == dec_val(s@, pos as int, e as int));
    }
    if v <= 255 {
        Some((v as u8, e))
    } else {
        None
    }
}

fn read_v4_at_exec(s: &str, pos: usize) -> (r: Option<((u8, u8, u8, u8), usize)>)
    requires
        pos <= s@.len(),
    ensures
        r is Some <==> read_v4_at(s@, pos as int) is Some,
        r matches Some(p) ==> read_v4_at(s@, pos as int) == Some(((p.0.0, p.0.1, p.0.2, p.0.3), p.1 as int))
            && pos < p.1 <= s@.len(),
{
    let o1 = match read_octet_at_exec(s, pos) {
        Some(o) => o,
        None => {
            return None;
        },
    };
    if !(o1.1 < s.unicode_len() && s.get_char(o1.1) == '.') {
        return None;
    }
    let o2 = match read_octet_at_exec(s, o1.1 + 1) {
        Some(o) => o,
        None => {
            return None;
        },
    };
    if !(o2.1 < s.unicode_len() && s.get_char(o2.1) == '.') {
        return None;
    }
    let o3 = match read_octet_at_exec(s, o2.1 + 1) {
        Some(o) => o,
        None => {
            return None;
        },
    };
    if !(o3.1 < s.unicode_len() && s.get_char(o3.1) == '.') {
        return None;
    }
    let o4 = match read_octet_at_exec(s, o3.1 + 1) {
        Some(o) => o,
        None => {
            return None;
        },
    };
    Some(((o1.0, o2.0, o3.0, o4.0), o4.1))
}

fn read_hex_group_exec(s: &str, pos: usize) -> (r: Option<(u16, usize)>)
    requires
        pos <= s@.len(),
    ensures
        r is Some <==> read_hex_group(s@, pos as int) is Some,
        r matches Some(p) ==> read_hex_group(s@, pos as int) == Some((p.0, p.1 as int)) && pos < p.1
            <= s@.len(),
{
    let e = scan_hex_exec(s, pos);
    proof {
        lemma_scan_hex(s@, pos as int);
    }
    let len = e - pos;
    if len == 0 || len > 4 {
        return None;
    }
    let mut v: u32 = 0;
    let mut k = pos;
    while k < e
        invariant
            pos <= k <= e,
            e <= s@.len(),
            e - pos <= 4,
            forall|m: int| pos <= m < e ==> is_hex_digit(s@[m]),
            v == hex_val(s@, pos as int, k as int),
            v < if k >= pos + 4 {
                0x10000int
            } else if k >= pos + 3 {
                0x1000int
            } else if k >= pos + 2 {
                0x100int
            } else if k >= pos + 1 {
                0x10int
            } else {
                1int
            },
        decreases e - k,
    {
        let c = s.get_char(k);
        let d: u32 = if c as u32 <= 57 {
            c as u32 - 48
        } else if c as u32 >= 97 {
            c as u32 - 87
        } else {
            c as u32 - 55
        };
        proof {
            assert(is_hex_digit(s@[k as int]));
            assert(d == hex_digit_val(s@[k as int]));
        }
        v = v * 16 + d;
        k = k + 1;
    }
    proof {
        assert(hex_val(s@, pos as int, pos as int) == 0);
    }
    Some((v as u16, e))
}

fn read_groups_exec(s: &str, pos: usize, limit: usize, first: bool) -> (r: (Vec<u16>, usize, bool))
    requires
        pos <= s@.len(),
    ensures
        ({
            let g = read_groups(s@, pos as int, limit as int, first);
            &&& r.0@ == g.0
            &&& r.1 as int == g.1
            &&& r.2 == g.2
        }),
        pos <= r.1 <= s@.len(),
        r.0@.len() <= limit,
    decreases limit,
{
    if limit == 0 {
        return (Vec::new(), pos, false);
    }
    let p2 = if first {
        pos
    } else {
        if pos < s.unicode_len() && s.get_char(pos) == ':' {
            pos + 1
        } else {
            return (Vec::new(), pos, false);
        }
    };
    if limit >= 2 {
        match read_v4_at_exec(s, p2) {
            Some(res) => {
                let g1 = (res.0.0 as u16) * 256 + (res.0.1 as u16);
                let g2 = (res.0.2 as u16) * 256 + (res.0.3 as u16);
                let gs = vec![g1, g2];
                proof {
                    assert(gs@ =~= seq![g1, g2]);
                    let spec_r = read_groups(s@, pos as int, limit as int, first);
                    assert(gs@ =~= spec_r.0);
                }
                return (gs, res.1, true);
            },
            None => {},
        }
    }
    match read_hex_group_exec(s, p2) {
        Some(g) => {
            let rest = read_groups_exec(s, g.1, limit - 1, false);
            let mut gs = rest.0;
            gs.insert(0, g.0);
            proof {
                let spec_rest = read_groups(s@, g.1 as int, limit - 1, false);
                assert(gs@ =~= seq![g.0] + spec_rest.0);
            }
            (gs, rest.1, rest.2)
        },
        None => (Vec::new(), pos, false),
    }
}

/// Parses the dotted-decimal version-4 form.
pub fn parse_ipv4(s: &str) -> (r: Option<IpAddress>)
    ensures
        r == spec_parse_ipv4(s@),
{
    let n = s.unicode_len();
    match read_v4_at_exec(s, 0) {
        Some(res) => {
            if res.1 == n {
                Some(IpAddress::V4(res.0.0, res.0.1, res.0.2, res.0.3))
            } else {
                None
            }
        },
        None => None,
    }
}

/// Parses a version-6 form: eight groups, or fewer around one `::`,
/// with an optional embedded dotted-decimal tail.
pub fn parse_ipv6(s: &str) -> (r: Option<IpAddress>)
    ensures
        r == spec_parse_ipv6(s@),
{
    let n = s.unicode_len();
    let head = read_groups_exec(s, 0, 8, true);
    if head.0.len() == 8 {
        if head.1 == n {
            return Some(
                IpAddress::V6(
                    head.0[0],
                    head.0[1],
                    head.0[2],
                    head.0[3],
                    head.0[4],
                    head.0[5],
                    head.0[6],
                    head.0[7],
                ),
            );
        } else {
            return None;
        }
    }
    if head.2 {
        return None;
    }
    if !(head.1 < n && head.1 + 1 < n && s.get_char(head.1) == ':' && s.get_char(head.1 + 1) == ':')
    {
        return None;
    }
    let limit = 8 - head.0.len() - 1;
    let tail = read_groups_exec(s, head.1 + 2, limit, true);
    if !(tail.1 == n) {
        return None;
    }
    let mut segs = head.0;
    let fill = 8 - segs.len() - tail.0.len();
    let mut k: usize = 0;
    while k < fill
        invariant
            k <= fill,
            segs@.len() == head.0@.len() + k,
            segs@ =~= head.0@ + zero_groups(k as int),
        decreases fill - k,
    {
        segs.push(0);
        proof {
            assert(segs@ =~= head.0@ + zero_groups(k + 1));
        }
        k = k + 1;
    }
    let mut tail_vec = tail.0;
    segs.append(&mut tail_vec);
    proof {
        let spec_head = read_groups(s@, 0, 8, true);
        let spec_tail = read_groups(s@, spec_head.1 + 2, (8 - spec_head.0.len() - 1) as int, true);
        assert(segs@ =~= spec_head.0 + zero_groups(8 - spec_head.0.len() - spec_tail.0.len())
            + spec_tail.0);
    }
    Some(IpAddress::V6(segs[0], segs[1], segs[2], segs[3], segs[4], segs[5], segs[6], segs[7]))
}

/// Parses an address in either textual form.
pub fn parse_ip(s: &str) -> (r: Option<IpAddress>)
    ensures
        r == spec_parse_ip(s@),
{
    match parse_ipv4(s) {
        Some(ip) => Some(ip),
        None => parse_ipv6(s),
    }
}

} // verus!
