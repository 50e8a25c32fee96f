//! Parsing of IP literals: the dotted-quad IPv4 grammar and the IPv6
//! grammar with `::` compression and an optional embedded IPv4 tail.

use vstd::prelude::*;
use crate::addr::{dec_digit_char, dec_rep, groups_text, hex_digit_char, hex_rep, v4_text, v6_groups, Address};

verus! {

/// The value of `c` as a decimal digit, when it is one.
pub open spec fn dec_digit_of(c: char) -> Option<int> {
    if c == '0' {
        Some(0int)
    } else if c == '1' {
        Some(1int)
    } else if c == '2' {
        Some(2int)
    } else if c == '3' {
        Some(3int)
    } else if c == '4' {
        Some(4int)
    } else if c == '5' {
        Some(5int)
    } else if c == '6' {
        Some(6int)
    } else if c == '7' {
        Some(7int)
    } else if c == '8' {
        Some(8int)
    } else if c == '9' {
        Some(9int)
    } else {
        None
    }
}

/// Whether `c` is a decimal digit.
pub open spec fn is_dec_digit(c: char) -> bool {
    dec_digit_of(c) is Some
}

/// The value of the decimal digit `c`.
pub open spec fn dec_digit_val(c: char) -> int {
    dec_digit_of(c).unwrap()
}

/// The value of `c` as a hexadecimal digit of either case, when it is
/// one.
pub open spec fn hex_digit_of(c: char) -> Option<int> {
    if dec_digit_of(c) is Some {
        dec_digit_of(c)
    } else if c == 'a' || c == 'A' {
        Some(10int)
    } else if c == 'b' || c == 'B' {
        Some(11int)
    } else if c == 'c' || c == 'C' {
        Some(12int)
    } else if c == 'd' || c == 'D' {
        Some(13int)
    } else if c == 'e' || c == 'E' {
        Some(14int)
    } else if c == 'f' || c == 'F' {
        Some(15int)
    } else {
        None
    }
}

/// Whether `c` is a hexadecimal digit, either case.
pub open spec fn is_hex_digit(c: char) -> bool {
    hex_digit_of(c) is Some
}

/// The value of the hexadecimal digit `c`.
pub open spec fn hex_digit_val(c: char) -> int {
    hex_digit_of(c).unwrap()
}

/// The value of `c` as a decimal digit.
fn dec_value(c: char) -> (r: Option<u8>)
    ensures
        match r {
            Some(d) => is_dec_digit(c) && d == dec_digit_val(c),
            None => !is_dec_digit(c),
        },
{
    match c {
        '0' => Some(0),
        '1' => Some(1),
        '2' => Some(2),
        '3' => Some(3),
        '4' => Some(4),
        '5' => Some(5),
        '6' => Some(6),
        '7' => Some(7),
        '8' => Some(8),
        '9' => Some(9),
        _ => None,
    }
}

/// The value of `c` as a hexadecimal digit of either case.
fn hex_value(c: char) -> (r: Option<u8>)
    ensures
        match r {
            Some(d) => is_hex_digit(c) && d == hex_digit_val(c),
            None => !is_hex_digit(c),
        },
{
    match c {
        '0' => Some(0),
        '1' => Some(1),
        '2' => Some(2),
        '3' => Some(3),
        '4' => Some(4),
        '5' => Some(5),
        '6' => Some(6),
        '7' => Some(7),
        '8' => Some(8),
        '9' => Some(9),
        'a' | 'A' => Some(10),
        'b' | 'B' => Some(11),
        'c' | 'C' => Some(12),
        'd' | 'D' => Some(13),
        'e' | 'E' => Some(14),
        'f' | 'F' => Some(15),
        _ => None,
    }
}

/// The value of a string of decimal digits, most significant first.
pub open spec fn dec_seq_val(s: Seq<char>) -> int
    decreases s.len(),
{
    if s.len() == 0 {
        0
    } else {
        dec_seq_val(s.drop_last()) * 10 + dec_digit_val(s.last())
    }
}

/// The value of a string of hexadecimal digits, most significant first.
pub open spec fn hex_seq_val(s: Seq<char>) -> int
    decreases s.len(),
{
    if s.len() == 0 {
        0
    } else {
        hex_seq_val(s.drop_last()) * 16 + hex_digit_val(s.last())
    }
}

/// Whether every character of `s` is a decimal digit.
pub open spec fn all_dec_digits(s: Seq<char>) -> bool {
    forall|i: int| 0 <= i < s.len() ==> is_dec_digit(s[i])
}

/// Whether every character of `s` is a hexadecimal digit.
pub open spec fn all_hex_digits(s: Seq<char>) -> bool {
    forall|i: int| 0 <= i < s.len() ==> is_hex_digit(s[i])
}

/// The octet denoted by `s` in the dotted-quad grammar: one to three
/// decimal digits, no leading zero, value at most 255.
pub open spec fn octet_of(s: Seq<char>) -> Option<u8> {
    if 1 <= s.len() <= 3 && all_dec_digits(s) && (s.len() == 1 || s[0] != '0') && dec_seq_val(s)
        <= 255 {
        Some(dec_seq_val(s) as u8)
    } else {
        None
    }
}

/// The 16-bit group denoted by `s` in the IPv6 grammar: one to four
/// hexadecimal digits, leading zeros allowed.
pub open spec fn hextet_of(s: Seq<char>) -> Option<u16> {
    if 1 <= s.len() <= 4 && all_hex_digits(s) {
        Some(hex_seq_val(s) as u16)
    } else {
        None
    }
}

/// `s` split on the separator `sep`: the fields between separators, in
/// order, the empty field included.
pub open spec fn split_on(s: Seq<char>, sep: char) -> Seq<Seq<char>>
    decreases s.len(),
{
    if s.len() == 0 {
        seq![s]
    } else if s[0] == sep {
        seq![Seq::<char>::empty()] + split_on(s.drop_first(), sep)
    } else {
        let r = split_on(s.drop_first(), sep);
        r.update(0, seq![s[0]] + r[0])
    }
}

/// Splitting always yields at least one field.
proof fn lemma_split_on_len(s: Seq<char>, sep: char)
    ensures
        split_on(s, sep).len() >= 1,
    decreases s.len(),
{
    if s.len() != 0 {
        lemma_split_on_len(s.drop_first(), sep);
    }
}

/// Four octet fields making a dotted-quad IPv4 address.
pub open spec fn v4_of_fields(f: Seq<Seq<char>>) -> Option<Address> {
    if f.len() == 4 && octet_of(f[0]) is Some && octet_of(f[1]) is Some && octet_of(f[2]) is Some
        && octet_of(f[3]) is Some {
        Some(
            Address::V4(
                octet_of(f[0]).unwrap(),
                octet_of(f[1]).unwrap(),
                octet_of(f[2]).unwrap(),
                octet_of(f[3]).unwrap(),
            ),
        )
    } else {
        None
    }
}

/// A dotted-quad IPv4 literal: exactly four octet fields.
pub open spec fn spec_parse_v4(s: Seq<char>) -> Option<Address> {
    v4_of_fields(split_on(s, '.'))
}

/// The groups denoted by the fields `f[from..to]` when each is a
/// hextet.
pub open spec fn head_groups(f: Seq<Seq<char>>, from: int, to: int) -> Option<Seq<u16>>
    decreases to - from,
{
    if from >= to {
        Some(Seq::<u16>::empty())
    } else {
        match hextet_at(f, from) {
            Some(h) => match head_groups(f, from + 1, to) {
                Some(r) => Some(seq![h] + r),
                None => None,
            },
            None => None,
        }
    }
}

/// The hextet at field `from`, when it is one.
pub open spec fn hextet_at(f: Seq<Seq<char>>, from: int) -> Option<u16> {
    if 0 <= from < f.len() {
        hextet_of(f[from])
    } else {
        None
    }
}

/// The two groups carried by an embedded IPv4 literal.
pub open spec fn v4_pair(a: Address) -> Seq<u16>
    recommends
        a is V4,
{
    match a {
        Address::V4(x0, x1, x2, x3) => seq![
            (x0 as u16 * 256 + x1 as u16) as u16,
            (x2 as u16 * 256 + x3 as u16) as u16,
        ],
        Address::V6(..) => Seq::<u16>::empty(),
    }
}

/// The groups denoted by the fields `f[from..to]` at the tail of an
/// IPv6 literal: hextets throughout, or hextets followed by one
/// embedded IPv4 literal standing for the last two groups.
pub open spec fn tail_groups(f: Seq<Seq<char>>, from: int, to: int) -> Option<Seq<u16>> {
    match head_groups(f, from, to) {
        Some(g) => Some(g),
        None => if from < to && head_groups(f, from, to - 1) is Some && spec_parse_v4(
            f[to - 1],
        ) is Some {
            Some(head_groups(f, from, to - 1).unwrap() + v4_pair(spec_parse_v4(f[to - 1]).unwrap()))
        } else {
            None
        },
    }
}

/// The index of the first empty field at or after `from`, or the field
/// count when none is empty.
pub open spec fn first_empty_at(f: Seq<Seq<char>>, from: int) -> int
    decreases f.len() - from,
{
    if from < 0 || from >= f.len() {
        f.len() as int
    } else if f[from].len() == 0 {
        from
    } else {
        first_empty_at(f, from + 1)
    }
}

/// The address made of the eight groups `g`.
pub open spec fn addr_of_groups(g: Seq<u16>) -> Address
    recommends
        g.len() == 8,
{
    Address::V6(g[0], g[1], g[2], g[3], g[4], g[5], g[6], g[7])
}

/// Eight groups from head groups, a compressed run of zeros, and tail
/// groups.
pub open spec fn expand(h: Seq<u16>, t: Seq<u16>) -> Seq<u16> {
    h + Seq::<u16>::new((8 - h.len() - t.len()) as nat, |i: int| 0u16) + t
}

/// An IPv6 literal: eight hextet fields, seven fields with an embedded
/// IPv4 tail, or a form compressed once by `::`, the compression
/// standing for at least one zero group.
pub open spec fn v6_of_fields(f: Seq<Seq<char>>) -> Option<Address> {
    let n = f.len() as int;
    if f[0].len() == 0 {
        if n >= 3 && f[1].len() == 0 {
            if n == 3 && f[2].len() == 0 {
                Some(addr_of_groups(Seq::<u16>::new(8, |i: int| 0u16)))
            } else {
                match tail_groups(f, 2, n) {
                    Some(t) => if t.len() <= 7 {
                        Some(addr_of_groups(expand(Seq::<u16>::empty(), t)))
                    } else {
                        None
                    },
                    None => None,
                }
            }
        } else {
            None
        }
    } else if f[n - 1].len() == 0 {
        if n >= 2 && f[n - 2].len() == 0 {
            match head_groups(f, 0, n - 2) {
                Some(h) => if h.len() <= 7 {
                    Some(addr_of_groups(expand(h, Seq::<u16>::empty())))
                } else {
                    None
                },
                None => None,
            }
        } else {
            None
        }
    } else {
        let i = first_empty_at(f, 0);
        if i < n {
            match (head_groups(f, 0, i), tail_groups(f, i + 1, n)) {
                (Some(h), Some(t)) => if h.len() + t.len() <= 7 {
                    Some(addr_of_groups(expand(h, t)))
                } else {
                    None
                },
                _ => None,
            }
        } else {
            match tail_groups(f, 0, n) {
                Some(g) => if g.len() == 8 {
                    Some(addr_of_groups(g))
                } else {
                    None
                },
                None => None,
            }
        }
    }
}

/// An IPv6 literal, read from the `:`-separated fields of the input.
pub open spec fn spec_parse_v6(s: Seq<char>) -> Option<Address> {
    v6_of_fields(split_on(s, ':'))
}

/// An IP literal of either family: the IPv4 reading where it holds,
/// else the IPv6 reading.
pub open spec fn spec_parse_ip(s: Seq<char>) -> Option<Address> {
    if spec_parse_v4(s) is Some {
        spec_parse_v4(s)
    } else {
        spec_parse_v6(s)
    }
}

/// The decimal representation of `n` is made of digits, denotes `n`,
/// begins with `0` only for zero itself, and is at most three digits
/// long for an octet value.
proof fn lemma_dec_rep_digits(n: nat)
    ensures
        all_dec_digits(dec_rep(n)),
        dec_seq_val(dec_rep(n)) == n,
        dec_rep(n).len() >= 1,
        dec_rep(n)[0] == '0' ==> n == 0,
        n <= 9 ==> dec_rep(n).len() == 1,
        n <= 99 ==> dec_rep(n).len() <= 2,
        n <= 255 ==> dec_rep(n).len() <= 3,
    decreases n,
{
    if n < 10 {
        let s = dec_rep(n);
        assert(s =~= seq![dec_digit_char(n)]);
        assert(s.drop_last() =~= Seq::<char>::empty());
        assert(dec_digit_of(dec_digit_char(n)) == Some(n as int));
        assert(dec_seq_val(Seq::<char>::empty()) == 0);
        assert(s.last() == dec_digit_char(n));
        assert(dec_seq_val(s) == dec_seq_val(s.drop_last()) * 10 + dec_digit_val(s.last()));
    } else {
        lemma_dec_rep_digits(n / 10);
        let p = dec_rep(n / 10);
        let s = dec_rep(n);
        assert(s == p.push(dec_digit_char(n % 10)));
        assert(dec_digit_of(dec_digit_char(n % 10)) == Some((n % 10) as int));
        assert forall|i: int| 0 <= i < s.len() implies is_dec_digit(s[i]) by {
            if i < p.len() {
                assert(s[i] == p[i]);
            } else {
                assert(s[i] == dec_digit_char(n % 10));
            }
        }
        assert(s.drop_last() =~= p);
        assert(dec_seq_val(s) == dec_seq_val(p) * 10 + dec_digit_val(dec_digit_char(n % 10)));
        assert(s[0] == p[0]);
    }
}

/// A string free of the separator splits into itself alone.
proof fn lemma_split_on_no_sep(s: Seq<char>, sep: char)
    requires
        forall|i: int| 0 <= i < s.len() ==> s[i] != sep,
    ensures
        split_on(s, sep) == seq![s],
    decreases s.len(),
{
    if s.len() != 0 {
        lemma_split_on_no_sep(s.drop_first(), sep);
        let r = split_on(s.drop_first(), sep);
        assert(seq![s[0]] + r[0] =~= s);
        assert(split_on(s, sep) =~~= seq![s]);
    }
}

/// Splitting a concatenation at its first separator peels off the
/// separator-free head as one field.
proof fn lemma_split_on_concat(x: Seq<char>, y: Seq<char>, sep: char)
    requires
        forall|i: int| 0 <= i < x.len() ==> x[i] != sep,
    ensures
        split_on(x + seq![sep] + y, sep) == seq![x] + split_on(y, sep),
    decreases x.len(),
{
    let s = x + seq![sep] + y;
    if x.len() == 0 {
        assert(s[0] == sep);
        assert(s.drop_first() =~= y);
        assert(split_on(s, sep) =~~= seq![x] + split_on(y, sep));
    } else {
        assert(s[0] == x[0]);
        assert(s.drop_first() =~= x.drop_first() + seq![sep] + y);
        lemma_split_on_concat(x.drop_first(), y, sep);
        let r = split_on(s.drop_first(), sep);
        assert(r[0] == x.drop_first());
        assert(seq![s[0]] + r[0] =~= x);
        assert(split_on(s, sep) =~~= seq![x] + split_on(y, sep));
    }
}

/// The round trip of the dotted-quad form: parsing the canonical text
/// of an IPv4 address yields that address again, whatever its octets.
pub proof fn lemma_v4_round_trip(a: u8, b: u8, c: u8, d: u8)
    ensures
        spec_parse_ip(v4_text(a as nat, b as nat, c as nat, d as nat)) == Some(
            Address::V4(a, b, c, d),
        ),
{
    let ra = dec_rep(a as nat);
    let rb = dec_rep(b as nat);
    let rc = dec_rep(c as nat);
    let rd = dec_rep(d as nat);
    lemma_dec_rep_digits(a as nat);
    lemma_dec_rep_digits(b as nat);
    lemma_dec_rep_digits(c as nat);
    lemma_dec_rep_digits(d as nat);
    let s = v4_text(a as nat, b as nat, c as nat, d as nat);
    assert(s =~= ra + seq!['.'] + (rb + seq!['.'] + (rc + seq!['.'] + rd)));
    lemma_split_on_concat(ra, rb + seq!['.'] + (rc + seq!['.'] + rd), '.');
    lemma_split_on_concat(rb, rc + seq!['.'] + rd, '.');
    lemma_split_on_concat(rc, rd, '.');
    lemma_split_on_no_sep(rd, '.');
    let f = split_on(s, '.');
    assert(f =~= seq![ra, rb, rc, rd]);
    assert(octet_of(ra) == Some(a));
    assert(octet_of(rb) == Some(b));
    assert(octet_of(rc) == Some(c));
    assert(octet_of(rd) == Some(d));
    assert(spec_parse_v4(s) == Some(Address::V4(a, b, c, d)));
}

/// The hexadecimal representation of `n` is made of hexadecimal
/// digits, denotes `n`, and is at most four digits long for a group
/// value.
proof fn lemma_hex_rep_digits(n: nat)
    ensures
        all_hex_digits(hex_rep(n)),
        hex_seq_val(hex_rep(n)) == n,
        hex_rep(n).len() >= 1,
        n <= 15 ==> hex_rep(n).len() == 1,
        n <= 255 ==> hex_rep(n).len() <= 2,
        n <= 4095 ==> hex_rep(n).len() <= 3,
        n <= 65535 ==> hex_rep(n).len() <= 4,
    decreases n,
{
    if n < 16 {
        let s = hex_rep(n);
        assert(s =~= seq![hex_digit_char(n)]);
        assert(s.drop_last() =~= Seq::<char>::empty());
        assert(hex_digit_of(hex_digit_char(n)) == Some(n as int));
        assert(hex_seq_val(Seq::<char>::empty()) == 0);
        assert(s.last() == hex_digit_char(n));
        assert(hex_seq_val(s) == hex_seq_val(s.drop_last()) * 16 + hex_digit_val(s.last()));
    } else {
        lemma_hex_rep_digits(n / 16);
        let p = hex_rep(n / 16);
        let s = hex_rep(n);
        assert(s == p.push(hex_digit_char(n % 16)));
        assert(hex_digit_of(hex_digit_char(n % 16)) == Some((n % 16) as int));
        assert forall|i: int| 0 <= i < s.len() implies is_hex_digit(s[i]) by {
            if i < p.len() {
                assert(s[i] == p[i]);
            } else {
                assert(s[i] == hex_digit_char(n % 16));
            }
        }
        assert(s.drop_last() =~= p);
        assert(hex_seq_val(s) == hex_seq_val(p) * 16 + hex_digit_val(hex_digit_char(n % 16)));
    }
}

/// Parsing the hexadecimal text of a group gives the group back.
proof fn lemma_hextet_round_trip(n: u16)
    ensures
        hextet_of(hex_rep(n as nat)) == Some(n),
{
    lemma_hex_rep_digits(n as nat);
}

/// The group texts joined by `:` split back into the group texts.
proof fn lemma_split_groups(g: Seq<u16>)
    requires
        g.len() >= 1,
    ensures
        split_on(groups_text(g), ':') == Seq::new(g.len(), |i: int| hex_rep(g[i] as nat)),
    decreases g.len(),
{
    lemma_hex_rep_digits(g[0] as nat);
    assert(!is_hex_digit(':'));
    if g.len() == 1 {
        assert(groups_text(g) == hex_rep(g[0] as nat));
        lemma_split_on_no_sep(hex_rep(g[0] as nat), ':');
        assert(split_on(groups_text(g), ':') =~~= Seq::new(
            g.len(),
            |i: int| hex_rep(g[i] as nat),
        ));
    } else {
        lemma_split_groups(g.drop_first());
        lemma_split_on_concat(hex_rep(g[0] as nat), groups_text(g.drop_first()), ':');
        assert(split_on(groups_text(g), ':') =~~= Seq::new(
            g.len(),
            |i: int| hex_rep(g[i] as nat),
        ));
    }
}

/// Hextet fields read back as the groups they were printed from.
proof fn lemma_head_groups_of_hextets(f: Seq<Seq<char>>, g: Seq<u16>, from: int)
    requires
        f.len() == g.len(),
        0 <= from <= g.len(),
        forall|i: int| 0 <= i < g.len() ==> f[i] == hex_rep(g[i] as nat),
    ensures
        head_groups(f, from, f.len() as int) == Some(g.skip(from)),
    decreases g.len() - from,
{
    if from < g.len() {
        lemma_hextet_round_trip(g[from]);
        lemma_head_groups_of_hextets(f, g, from + 1);
        assert(seq![g[from]] + g.skip(from + 1) =~= g.skip(from));
    } else {
        assert(g.skip(from) =~= Seq::<u16>::empty());
    }
}

/// The round trip of the full IPv6 form: the eight group texts joined
/// by `:` parse back to the same eight groups, whatever they are.
pub proof fn lemma_v6_full_form_round_trip(g: Seq<u16>)
    requires
        g.len() == 8,
    ensures
        spec_parse_v6(groups_text(g)) == Some(addr_of_groups(g)),
{
    lemma_split_groups(g);
    let f = split_on(groups_text(g), ':');
    assert forall|i: int| 0 <= i < 8 implies f[i].len() >= 1 by {
        lemma_hex_rep_digits(g[i] as nat);
    }
    lemma_first_empty_at_bounds(f, 0);
    lemma_head_groups_of_hextets(f, g, 0);
    assert(g.skip(0) =~= g);
    assert(tail_groups(f, 0, 8) == Some(g));
}

/// A literal that reads as IPv4 yields an IPv4 address, and one that
/// reads as IPv6 an IPv6 address; with the probe builder's contract,
/// a probe built for a parsed IPv6 literal carries identifier zero.
pub proof fn lemma_parse_family(s: Seq<char>)
    ensures
        spec_parse_v4(s) matches Some(a) ==> a is V4,
        spec_parse_v6(s) matches Some(a) ==> a is V6,
        spec_parse_ip(s) matches Some(a) ==> (a is V4 <==> spec_parse_v4(s) is Some),
{
}

/// The character views of a sequence of character vectors.
pub open spec fn views_of(v: Seq<Vec<char>>) -> Seq<Seq<char>> {
    Seq::new(v.len(), |i: int| v[i]@)
}

/// The characters of `s`, in order.
fn chars_of(s: &str) -> (r: Vec<char>)
    ensures
        r@ == s@,
{
    let n = s.unicode_len();
    let mut r: Vec<char> = Vec::new();
    let mut i: usize = 0;
    while i < n
        invariant
            i <= n,
            n == s@.len(),
            r@ == s@.take(i as int),
        decreases n - i,
    {
        r.push(s.get_char(i));
        i = i + 1;
        proof {
            assert(r@ =~= s@.take(i as int));
        }
    }
    proof {
        assert(r@ =~= s@);
    }
    r
}

/// Splits `v` on the separator `sep`.
fn split_chars(v: &Vec<char>, sep: char) -> (r: Vec<Vec<char>>)
    ensures
        views_of(r@) == split_on(v@, sep),
        r@.len() >= 1,
{
    let ghost len = v@.len() as int;
    let mut i = v.len();
    let mut acc: Vec<Vec<char>> = Vec::new();
    acc.push(Vec::new());
    proof {
        assert(v@.subrange(i as int, len) =~= Seq::<char>::empty());
        assert(views_of(acc@) =~= split_on(v@.subrange(i as int, len), sep));
    }
    while i > 0
        invariant
            i <= v@.len(),
            len == v@.len(),
            acc@.len() >= 1,
            views_of(acc@) == split_on(v@.subrange(i as int, len), sep),
        decreases i,
    {
        i = i - 1;
        let ghost s_old = v@.subrange(i as int + 1, len);
        let ghost s_new = v@.subrange(i as int, len);
        proof {
            assert(s_new.drop_first() =~= s_old);
            lemma_split_on_len(s_old, sep);
        }
        let ghost r_old = split_on(s_old, sep);
        let c = v[i];
        if c == sep {
            acc.insert(0, Vec::new());
            proof {
                assert(views_of(acc@) =~~= split_on(s_new, sep));
            }
        } else {
            let mut first = acc.remove(0);
            first.insert(0, c);
            acc.insert(0, first);
            proof {
                assert(first@ =~= seq![c] + r_old[0]);
                assert(views_of(acc@) =~~= split_on(s_new, sep));
            }
        }
    }
    proof {
        assert(v@.subrange(0, len) =~= v@);
    }
    acc
}

/// The octet denoted by `f`, by the dotted-quad grammar.
fn octet_val(f: &Vec<char>) -> (r: Option<u8>)
    ensures
        r == octet_of(f@),
{
    let n = f.len();
    if n < 1 || n > 3 {
        return None;
    }
    if n > 1 && f[0] == '0' {
        return None;
    }
    let mut val: u32 = 0;
    let mut i: usize = 0;
    while i < n
        invariant
            i <= n,
            n == f@.len(),
            1 <= n <= 3,
            all_dec_digits(f@.take(i as int)),
            val == dec_seq_val(f@.take(i as int)),
            i == 0 ==> val == 0,
            i == 1 ==> val <= 9,
            i == 2 ==> val <= 99,
            val <= 999,
        decreases n - i,
    {
        let d = match dec_value(f[i]) {
            Some(d) => d,
            None => {
                return None;
            },
        };
        val = val * 10 + (d as u32);
        i = i + 1;
        proof {
            assert(f@.take(i as int).drop_last() =~= f@.take(i as int - 1));
        }
    }
    proof {
        assert(f@.take(n as int) =~= f@);
    }
    if val > 255 {
        return None;
    }
    Some(val as u8)
}

/// The 16-bit group denoted by `f`, by the IPv6 grammar.
fn hextet_val(f: &Vec<char>) -> (r: Option<u16>)
    ensures
        r == hextet_of(f@),
{
    let n = f.len();
    if n < 1 || n > 4 {
        return None;
    }
    let mut val: u32 = 0;
    let mut i: usize = 0;
    while i < n
        invariant
            i <= n,
            n == f@.len(),
            1 <= n <= 4,
            all_hex_digits(f@.take(i as int)),
            val == hex_seq_val(f@.take(i as int)),
            i == 0 ==> val == 0,
            i == 1 ==> val <= 15,
            i == 2 ==> val <= 255,
            i == 3 ==> val <= 4095,
            val <= 65535,
        decreases n - i,
    {
        let d = match hex_value(f[i]) {
            Some(d) => d,
            None => {
                return None;
            },
        };
        val = val * 16 + (d as u32);
        i = i + 1;
        proof {
            assert(f@.take(i as int).drop_last() =~= f@.take(i as int - 1));
        }
    }
    proof {
        assert(f@.take(n as int) =~= f@);
    }
    Some(val as u16)
}

/// Reads four octet fields as an IPv4 address.
fn v4_from_fields(fields: &Vec<Vec<char>>) -> (r: Option<Address>)
    ensures
        r == v4_of_fields(views_of(fields@)),
{
    if fields.len() != 4 {
        return None;
    }
    let a = match octet_val(&fields[0]) {
        Some(x) => x,
        None => {
            return None;
        },
    };
    let b = match octet_val(&fields[1]) {
        Some(x) => x,
        None => {
            return None;
        },
    };
    let c = match octet_val(&fields[2]) {
        Some(x) => x,
        None => {
            return None;
        },
    };
    let d = match octet_val(&fields[3]) {
        Some(x) => x,
        None => {
            return None;
        },
    };
    Some(Address::V4(a, b, c, d))
}

/// Parses a dotted-quad IPv4 literal.
pub fn parse_v4(s: &str) -> (r: Option<Address>)
    ensures
        r == spec_parse_v4(s@),
{
    let chars = chars_of(s);
    let fields = split_chars(&chars, '.');
    v4_from_fields(&fields)
}

/// Reads the fields `f[from..to]` as hextet groups.
fn head_from_fields(fields: &Vec<Vec<char>>, from: usize, to: usize) -> (r: Option<Vec<u16>>)
    requires
        from <= to <= fields@.len(),
        to - from <= 9,
    ensures
        match r {
            Some(g) => head_groups(views_of(fields@), from as int, to as int) == Some(g@),
            None => head_groups(views_of(fields@), from as int, to as int) is None,
        },
    decreases to - from,
{
    if from == to {
        let g: Vec<u16> = Vec::new();
        proof {
            assert(g@ =~= Seq::<u16>::empty());
        }
        return Some(g);
    }
    let h = match hextet_val(&fields[from]) {
        Some(x) => x,
        None => {
            return None;
        },
    };
    match head_from_fields(fields, from + 1, to) {
        Some(rest) => {
            let mut g: Vec<u16> = Vec::new();
            g.push(h);
            let mut j: usize = 0;
            while j < rest.len()
                invariant
                    j <= rest@.len(),
                    g@ == seq![h] + rest@.take(j as int),
                decreases rest@.len() - j,
            {
                g.push(rest[j]);
                j = j + 1;
                proof {
                    assert(g@ =~= seq![h] + rest@.take(j as int));
                }
            }
            proof {
                assert(rest@.take(rest@.len() as int) =~= rest@);
            }
            Some(g)
        },
        None => None,
    }
}

/// Reads the fields `f[from..to]` as an IPv6 tail: hextets, possibly
/// ending in an embedded IPv4 literal.
fn tail_from_fields(fields: &Vec<Vec<char>>, from: usize, to: usize) -> (r: Option<Vec<u16>>)
    requires
        from <= to <= fields@.len(),
        to - from <= 9,
    ensures
        match r {
            Some(g) => tail_groups(views_of(fields@), from as int, to as int) == Some(g@),
            None => tail_groups(views_of(fields@), from as int, to as int) is None,
        },
{
    match head_from_fields(fields, from, to) {
        Some(g) => Some(g),
        None => {
            if from == to {
                return None;
            }
            let mut h = match head_from_fields(fields, from, to - 1) {
                Some(x) => x,
                None => {
                    return None;
                },
            };
            let last = split_chars(&fields[to - 1], '.');
            match v4_from_fields(&last) {
                Some(Address::V4(a, b, c, d)) => {
                    let ghost before = h@;
                    h.push((a as u16) * 256 + (b as u16));
                    h.push((c as u16) * 256 + (d as u16));
                    proof {
                        let f = views_of(fields@);
                        assert(spec_parse_v4(f[to as int - 1]) == Some(Address::V4(a, b, c, d)));
                        assert(h@ =~= before + v4_pair(Address::V4(a, b, c, d)));
                    }
                    Some(h)
                },
                _ => None,
            }
        },
    }
}

/// A head-groups reading covers one group per field.
proof fn lemma_head_groups_len(f: Seq<Seq<char>>, from: int, to: int)
    requires
        head_groups(f, from, to) is Some,
    ensures
        head_groups(f, from, to).unwrap().len() == if to >= from {
            to - from
        } else {
            0
        },
    decreases to - from,
{
    if from < to {
        lemma_head_groups_len(f, from + 1, to);
    }
}

/// A tail-groups reading covers at least one group per field.
proof fn lemma_tail_groups_len(f: Seq<Seq<char>>, from: int, to: int)
    requires
        tail_groups(f, from, to) is Some,
        from <= to,
    ensures
        tail_groups(f, from, to).unwrap().len() >= to - from,
        tail_groups(f, from, to).unwrap().len() <= to - from + 1,
{
    if head_groups(f, from, to) is Some {
        lemma_head_groups_len(f, from, to);
    } else {
        lemma_head_groups_len(f, from, to - 1);
    }
}

/// More than nine fields never read as an IPv6 literal.
proof fn lemma_v6_too_many_fields(f: Seq<Seq<char>>)
    requires
        f.len() >= 10,
    ensures
        v6_of_fields(f) is None,
{
    let n = f.len() as int;
    if f[0].len() == 0 {
        if n >= 3 && f[1].len() == 0 && !(n == 3 && f[2].len() == 0) {
            if tail_groups(f, 2, n) is Some {
                lemma_tail_groups_len(f, 2, n);
            }
        }
    } else if f[n - 1].len() == 0 {
        if n >= 2 && f[n - 2].len() == 0 {
            if head_groups(f, 0, n - 2) is Some {
                lemma_head_groups_len(f, 0, n - 2);
            }
        }
    } else {
        let i = first_empty_at(f, 0);
        lemma_first_empty_at_bounds(f, 0);
        if i < n {
            if head_groups(f, 0, i) is Some && tail_groups(f, i + 1, n) is Some {
                lemma_head_groups_len(f, 0, i);
                lemma_tail_groups_len(f, i + 1, n);
            }
        } else {
            if tail_groups(f, 0, n) is Some {
                lemma_tail_groups_len(f, 0, n);
            }
        }
    }
}

/// The first empty field lies between `from` and the field count.
proof fn lemma_first_empty_at_bounds(f: Seq<Seq<char>>, from: int)
    requires
        0 <= from <= f.len(),
    ensures
        from <= first_empty_at(f, from) <= f.len(),
        first_empty_at(f, from) < f.len() ==> f[first_empty_at(f, from)].len() == 0,
    decreases f.len() - from,
{
    if from < f.len() && f[from].len() != 0 {
        lemma_first_empty_at_bounds(f, from + 1);
    }
}

/// The index of the first empty field, or the field count.
fn first_empty_index(fields: &Vec<Vec<char>>, from: usize) -> (r: usize)
    requires
        from <= fields@.len(),
    ensures
        r == first_empty_at(views_of(fields@), from as int),
    decreases fields@.len() - from,
{
    if from == fields.len() {
        fields.len()
    } else if fields[from].len() == 0 {
        from
    } else {
        first_empty_index(fields, from + 1)
    }
}

/// Builds the address whose groups are `h`, then zeros, then `t`.
fn expand_groups(h: &Vec<u16>, t: &Vec<u16>) -> (r: Address)
    requires
        h@.len() + t@.len() <= 8,
    ensures
        v6_groups(r) == expand(h@, t@),
        r is V6,
{
    let mut g: Vec<u16> = Vec::new();
    let mut i: usize = 0;
    while i < h.len()
        invariant
            i <= h@.len(),
            g@ == h@.take(i as int),
        decreases h@.len() - i,
    {
        g.push(h[i]);
        i = i + 1;
        proof {
            assert(g@ =~= h@.take(i as int));
        }
    }
    proof {
        assert(h@.take(h@.len() as int) =~= h@);
    }
    let zeros: usize = 8 - h.len() - t.len();
    let mut z: usize = 0;
    while z < zeros
        invariant
            z <= zeros,
            zeros == 8 - h@.len() - t@.len(),
            g@ == h@ + Seq::<u16>::new(z as nat, |i: int| 0u16),
        decreases zeros - z,
    {
        g.push(0);
        z = z + 1;
        proof {
            assert(g@ =~= h@ + Seq::<u16>::new(z as nat, |i: int| 0u16));
        }
    }
    let mut j: usize = 0;
    while j < t.len()
        invariant
            j <= t@.len(),
            g@ == h@ + Seq::<u16>::new((8 - h@.len() - t@.len()) as nat, |i: int| 0u16) + t@.take(
                j as int,
            ),
        decreases t@.len() - j,
    {
        g.push(t[j]);
        j = j + 1;
        proof {
            assert(g@ =~= h@ + Seq::<u16>::new((8 - h@.len() - t@.len()) as nat, |i: int| 0u16)
                + t@.take(j as int));
        }
    }
    proof {
        assert(t@.take(t@.len() as int) =~= t@);
        assert(g@ =~= expand(h@, t@));
        assert(g@.len() == 8);
    }
    let r = Address::V6(g[0], g[1], g[2], g[3], g[4], g[5], g[6], g[7]);
    proof {
        assert(v6_groups(r) =~= g@);
    }
    r
}

/// Reads the `:`-separated fields of an IPv6 literal.
#[verifier::rlimit(60)]
fn v6_from_fields(fields: &Vec<Vec<char>>) -> (r: Option<Address>)
    requires
        fields@.len() >= 1,
    ensures
        r == v6_of_fields(views_of(fields@)),
{
    let ghost f = views_of(fields@);
    let n = fields.len();
    if n >= 10 {
        proof {
            lemma_v6_too_many_fields(f);
        }
        return None;
    }
    if fields[0].len() == 0 {
        if n >= 3 && fields[1].len() == 0 {
            if n == 3 && fields[2].len() == 0 {
                let zero: Vec<u16> = Vec::new();
                let r = expand_groups(&zero, &zero);
                proof {
                    assert(expand(zero@, zero@) =~= Seq::<u16>::new(8, |i: int| 0u16));
                    assert(v6_of_fields(f) == Some(addr_of_groups(Seq::<u16>::new(8, |i: int| 0u16))));
                    assert(v6_groups(r) =~= v6_groups(addr_of_groups(Seq::<u16>::new(8, |i: int| 0u16))));
                    lemma_v6_groups_eq(r, addr_of_groups(Seq::<u16>::new(8, |i: int| 0u16)));
                }
                Some(r)
            } else {
                match tail_from_fields(fields, 2, n) {
                    Some(t) => {
                        if t.len() <= 7 {
                            let empty: Vec<u16> = Vec::new();
                            let r = expand_groups(&empty, &t);
                            proof {
                                assert(empty@ =~= Seq::<u16>::empty());
                                lemma_v6_groups_eq(r, addr_of_groups(expand(Seq::<u16>::empty(), t@)));
                            }
                            Some(r)
                        } else {
                            None
                        }
                    },
                    None => None,
                }
            }
        } else {
            None
        }
    } else if fields[n - 1].len() == 0 {
        if n >= 2 && fields[n - 2].len() == 0 {
            match head_from_fields(fields, 0, n - 2) {
                Some(h) => {
                    if h.len() <= 7 {
                        let empty: Vec<u16> = Vec::new();
                        let r = expand_groups(&h, &empty);
                        proof {
                            assert(empty@ =~= Seq::<u16>::empty());
                            lemma_v6_groups_eq(r, addr_of_groups(expand(h@, Seq::<u16>::empty())));
                        }
                        Some(r)
                    } else {
                        None
                    }
                },
                None => None,
            }
        } else {
            None
        }
    } else {
        let i = first_empty_index(fields, 0);
        proof {
            lemma_first_empty_at_bounds(f, 0);
        }
        if i < n {
            match head_from_fields(fields, 0, i) {
                Some(h) => {
                    match tail_from_fields(fields, i + 1, n) {
                        Some(t) => {
                            proof {
                                lemma_head_groups_len(f, 0, i as int);
                                lemma_tail_groups_len(f, i as int + 1, n as int);
                            }
                            if h.len() <= 7 && t.len() <= 7 - h.len() {
                                let r = expand_groups(&h, &t);
                                proof {
                                    lemma_v6_groups_eq(r, addr_of_groups(expand(h@, t@)));
                                }
                                Some(r)
                            } else {
                                None
                            }
                        },
                        None => None,
                    }
                },
                None => None,
            }
        } else {
            match tail_from_fields(fields, 0, n) {
                Some(g) => {
                    if g.len() == 8 {
                        let empty: Vec<u16> = Vec::new();
                        let r = expand_groups(&g, &empty);
                        proof {
                            assert(empty@ =~= Seq::<u16>::empty());
                            assert(expand(g@, Seq::<u16>::empty()) =~= g@);
                            lemma_v6_groups_eq(r, addr_of_groups(g@));
                        }
                        Some(r)
                    } else {
                        None
                    }
                },
                None => None,
            }
        }
    }
}

/// Two IPv6 addresses with equal groups are equal.
proof fn lemma_v6_groups_eq(a: Address, b: Address)
    requires
        a is V6,
        b is V6,
        v6_groups(a) == v6_groups(b),
    ensures
        a == b,
{
    assert(v6_groups(a)[0] == v6_groups(b)[0]);
    assert(v6_groups(a)[1] == v6_groups(b)[1]);
    assert(v6_groups(a)[2] == v6_groups(b)[2]);
    assert(v6_groups(a)[3] == v6_groups(b)[3]);
    assert(v6_groups(a)[4] == v6_groups(b)[4]);
    assert(v6_groups(a)[5] == v6_groups(b)[5]);
    assert(v6_groups(a)[6] == v6_groups(b)[6]);
    assert(v6_groups(a)[7] == v6_groups(b)[7]);
}

/// Parses an IPv6 literal.
pub fn parse_v6(s: &str) -> (r: Option<Address>)
    ensures
        r == spec_parse_v6(s@),
{
    let chars = chars_of(s);
    let fields = split_chars(&chars, ':');
    v6_from_fields(&fields)
}

/// Parses an IP literal of either family, as the resolver reads user
/// input: the IPv4 reading where it holds, else the IPv6 reading.
pub fn parse_ip(s: &str) -> (r: Option<Address>)
    ensures
        r == spec_parse_ip(s@),
{
    match parse_v4(s) {
        Some(a) => Some(a),
        None => parse_v6(s),
    }
}

} // verus!
