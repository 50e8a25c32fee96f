//! The address model: an IPv4 or IPv6 address held as plain integers,
//! together with its canonical textual form.

use vstd::prelude::*;

verus! {

/// An IP address, either family, held as plain integers.
#[derive(Clone, Copy, PartialEq, Eq, Structural, Debug)]
pub enum Address {
    /// The four octets of a dotted-quad IPv4 address, in order.
    V4(u8, u8, u8, u8),
    /// The eight 16-bit groups of an IPv6 address, in order.
    V6(u16, u16, u16, u16, u16, u16, u16, u16),
}

impl Address {
    /// Whether this address belongs to the IPv4 family.
    pub fn is_v4(&self) -> (r: bool)
        ensures
            r == self is V4,
    {
        match self {
            Address::V4(..) => true,
            Address::V6(..) => false,
        }
    }
}

/// The decimal digit character for `d` (which must be below ten).
pub open spec fn dec_digit_char(d: nat) -> char {
    if d == 0 {
        '0'
    } else if d == 1 {
        '1'
    } else if d == 2 {
        '2'
    } else if d == 3 {
        '3'
    } else if d == 4 {
        '4'
    } else if d == 5 {
        '5'
    } else if d == 6 {
        '6'
    } else if d == 7 {
        '7'
    } else if d == 8 {
        '8'
    } else {
        '9'
    }
}

/// The decimal representation of `n`, most significant digit first,
/// with no leading zeros (a lone `0` for zero).
pub open spec fn dec_rep(n: nat) -> Seq<char>
    decreases n,
{
    if n < 10 {
        seq![dec_digit_char(n)]
    } else {
        dec_rep(n / 10).push(dec_digit_char(n % 10))
    }
}

/// Appends the single decimal digit `d` to `s`.
fn push_dec_digit(s: &mut String, d: u8)
    requires
        d < 10,
    ensures
        final(s)@ == old(s)@.push(dec_digit_char(d as nat)),
{
    proof {
        reveal_strlit("0");
        reveal_strlit("1");
        reveal_strlit("2");
        reveal_strlit("3");
        reveal_strlit("4");
        reveal_strlit("5");
        reveal_strlit("6");
        reveal_strlit("7");
        reveal_strlit("8");
        reveal_strlit("9");
    }
    match d {
        0 => s.append("0"),
        1 => s.append("1"),
        2 => s.append("2"),
        3 => s.append("3"),
        4 => s.append("4"),
        5 => s.append("5"),
        6 => s.append("6"),
        7 => s.append("7"),
        8 => s.append("8"),
        _ => s.append("9"),
    }
    proof {
        assert(s@ =~= old(s)@.push(dec_digit_char(d as nat)));
    }
}

/// Appends the decimal representation of `n` to `s`.
pub fn push_decimal(s: &mut String, n: u64)
    ensures
        final(s)@ == old(s)@ + dec_rep(n as nat),
    decreases n,
{
    if n < 10 {
        push_dec_digit(s, n as u8);
        proof {
            assert(s@ =~= old(s)@ + dec_rep(n as nat));
        }
    } else {
        push_decimal(s, n / 10);
        push_dec_digit(s, (n % 10) as u8);
        proof {
            assert(s@ =~= old(s)@ + dec_rep(n as nat));
        }
    }
}

/// The lowercase hexadecimal digit character for `d` (which must be below sixteen).
pub open spec fn hex_digit_char(d: nat) -> char {
    if d < 10 {
        dec_digit_char(d)
    } else if d == 10 {
        'a'
    } else if d == 11 {
        'b'
    } else if d == 12 {
        'c'
    } else if d == 13 {
        'd'
    } else if d == 14 {
        'e'
    } else {
        'f'
    }
}

/// The lowercase hexadecimal representation of `n`, with no leading zeros.
pub open spec fn hex_rep(n: nat) -> Seq<char>
    decreases n,
{
    if n < 16 {
        seq![hex_digit_char(n)]
    } else {
        hex_rep(n / 16).push(hex_digit_char(n % 16))
    }
}

/// Appends the single hexadecimal digit `d` to `s`.
fn push_hex_digit(s: &mut String, d: u16)
    requires
        d < 16,
    ensures
        final(s)@ == old(s)@.push(hex_digit_char(d as nat)),
{
    proof {
        reveal_strlit("a");
        reveal_strlit("b");
        reveal_strlit("c");
        reveal_strlit("d");
        reveal_strlit("e");
        reveal_strlit("f");
    }
    if d < 10 {
        push_dec_digit(s, d as u8);
    } else {
        match d {
            10 => s.append("a"),
            11 => s.append("b"),
            12 => s.append("c"),
            13 => s.append("d"),
            14 => s.append("e"),
            _ => s.append("f"),
        }
    }
    proof {
        assert(s@ =~= old(s)@.push(hex_digit_char(d as nat)));
    }
}

/// Appends the hexadecimal representation of `n` to `s`.
fn push_hex(s: &mut String, n: u16)
    ensures
        final(s)@ == old(s)@ + hex_rep(n as nat),
    decreases n,
{
    if n < 16 {
        push_hex_digit(s, n);
    } else {
        push_hex(s, n / 16);
        push_hex_digit(s, n % 16);
    }
    proof {
        assert(s@ =~= old(s)@ + hex_rep(n as nat));
    }
}

/// The textual form of a dotted-quad IPv4 address.
pub open spec fn v4_text(a: nat, b: nat, c: nat, d: nat) -> Seq<char> {
    dec_rep(a) + seq!['.'] + dec_rep(b) + seq!['.'] + dec_rep(c) + seq!['.'] + dec_rep(d)
}

/// Appends the dotted-quad form of an IPv4 address to `s`.
fn push_v4_text(s: &mut String, a: u8, b: u8, c: u8, d: u8)
    ensures
        final(s)@ == old(s)@ + v4_text(a as nat, b as nat, c as nat, d as nat),
{
    proof {
        reveal_strlit(".");
    }
    push_decimal(s, a as u64);
    s.append(".");
    push_decimal(s, b as u64);
    s.append(".");
    push_decimal(s, c as u64);
    s.append(".");
    push_decimal(s, d as u64);
    proof {
        assert(s@ =~= old(s)@ + v4_text(a as nat, b as nat, c as nat, d as nat));
    }
}

/// The length of the run of zero groups in `g` that starts at `i`.
pub open spec fn zero_run_len(g: Seq<u16>, i: int) -> int
    decreases g.len() - i,
{
    if i < 0 || i >= g.len() || g[i] != 0 {
        0
    } else {
        1 + zero_run_len(g, i + 1)
    }
}

/// The start and length of the leftmost longest run of zero groups in
/// `g` at or after `i`; the start is `g.len()` when no zero group remains.
pub open spec fn best_zero_run(g: Seq<u16>, i: int) -> (int, int)
    decreases g.len() - i,
{
    if i < 0 || i >= g.len() {
        (g.len() as int, 0)
    } else {
        let cur = zero_run_len(g, i);
        let rest = best_zero_run(g, i + 1);
        if cur >= rest.1 {
            (i, cur)
        } else {
            rest
        }
    }
}

/// What the compression picks: `best_zero_run` yields a position no
/// earlier than `i`, the length of the zero run standing there, and
/// that run is the longest at or after `i`, with every strictly
/// earlier run strictly shorter.
pub proof fn lemma_best_zero_run(g: Seq<u16>, i: int)
    requires
        0 <= i <= g.len(),
    ensures
        ({
            let run = best_zero_run(g, i);
            &&& i <= run.0 <= g.len()
            &&& run.1 == zero_run_len(g, run.0)
            &&& forall|j: int| i <= j < g.len() ==> zero_run_len(g, j) <= run.1
            &&& forall|j: int| i <= j < run.0 ==> zero_run_len(g, j) < run.1
        }),
    decreases g.len() - i,
{
    if i < g.len() {
        lemma_best_zero_run(g, i + 1);
    }
}

/// The hexadecimal group texts of `g` joined by `:` separators.
pub open spec fn groups_text(g: Seq<u16>) -> Seq<char>
    decreases g.len(),
{
    if g.len() == 0 {
        Seq::<char>::empty()
    } else if g.len() == 1 {
        hex_rep(g[0] as nat)
    } else {
        hex_rep(g[0] as nat) + seq![':'] + groups_text(g.drop_first())
    }
}

/// Whether `g` holds an IPv4-mapped address (`::ffff:a.b.c.d`).
pub open spec fn is_v4_mapped(g: Seq<u16>) -> bool {
    g.len() == 8 && g[0] == 0 && g[1] == 0 && g[2] == 0 && g[3] == 0 && g[4] == 0 && g[5]
        == 0xffff
}

/// The textual form of the eight groups of an IPv6 address: the
/// IPv4-mapped form when it applies, otherwise the groups in lowercase
/// hexadecimal with the leftmost longest run of two or more zero groups
/// compressed to `::`.
pub open spec fn v6_text(g: Seq<u16>) -> Seq<char> {
    if is_v4_mapped(g) {
        seq![':', ':', 'f', 'f', 'f', 'f', ':'] + v4_text(
            (g[6] / 256) as nat,
            (g[6] % 256) as nat,
            (g[7] / 256) as nat,
            (g[7] % 256) as nat,
        )
    } else {
        let run = best_zero_run(g, 0);
        if run.1 > 1 {
            groups_text(g.subrange(0, run.0)) + seq![':', ':'] + groups_text(
                g.subrange(run.0 + run.1, g.len() as int),
            )
        } else {
            groups_text(g)
        }
    }
}

/// The groups of an IPv6 `Address`, in order.
pub open spec fn v6_groups(a: Address) -> Seq<u16>
    recommends
        a is V6,
{
    match a {
        Address::V4(..) => Seq::<u16>::empty(),
        Address::V6(g0, g1, g2, g3, g4, g5, g6, g7) => seq![g0, g1, g2, g3, g4, g5, g6, g7],
    }
}

/// The canonical textual form of an address, as the system prints it.
pub open spec fn addr_text(a: Address) -> Seq<char> {
    match a {
        Address::V4(x0, x1, x2, x3) => v4_text(x0 as nat, x1 as nat, x2 as nat, x3 as nat),
        Address::V6(..) => v6_text(v6_groups(a)),
    }
}

/// The length of the run of zero groups starting at `i`.
fn run_len_at(g: &Vec<u16>, i: usize) -> (r: usize)
    requires
        i <= g@.len(),
    ensures
        r == zero_run_len(g@, i as int),
        r <= g@.len() - i,
    decreases g@.len() - i,
{
    if i == g.len() {
        0
    } else if g[i] != 0 {
        0
    } else {
        let rest = run_len_at(g, i + 1);
        1 + rest
    }
}

/// The leftmost longest zero run at or after `i`.
fn best_run_at(g: &Vec<u16>, i: usize) -> (r: (usize, usize))
    requires
        i <= g@.len(),
    ensures
        (r.0 as int, r.1 as int) == best_zero_run(g@, i as int),
        r.0 <= g@.len(),
        r.1 <= g@.len() - r.0,
    decreases g@.len() - i,
{
    if i == g.len() {
        (g.len(), 0)
    } else {
        let cur = run_len_at(g, i);
        let rest = best_run_at(g, i + 1);
        if cur >= rest.1 {
            (i, cur)
        } else {
            rest
        }
    }
}

/// Appends the groups `g[from..to]` joined by `:` to `s`.
fn push_groups(s: &mut String, g: &Vec<u16>, from: usize, to: usize)
    requires
        from <= to <= g@.len(),
    ensures
        final(s)@ == old(s)@ + groups_text(g@.subrange(from as int, to as int)),
    decreases to - from,
{
    proof {
        reveal_strlit(":");
    }
    if from == to {
        proof {
            assert(s@ =~= old(s)@ + groups_text(g@.subrange(from as int, to as int)));
        }
    } else {
        push_hex(s, g[from]);
        if from + 1 < to {
            s.append(":");
            push_groups(s, g, from + 1, to);
        }
        proof {
            let sub = g@.subrange(from as int, to as int);
            assert(sub[0] == g@[from as int]);
            if from + 1 < to {
                assert(sub.drop_first() =~= g@.subrange(from as int + 1, to as int));
            } else {
                assert(sub.len() == 1);
            }
            assert(s@ =~= old(s)@ + groups_text(sub));
        }
    }
}

impl Address {
    /// The textual form of the address, exactly as the system renders it.
    pub fn to_text(&self) -> (r: String)
        ensures
            r@ == addr_text(*self),
    {
        let mut s = String::new();
        match self {
            Address::V4(a, b, c, d) => {
                push_v4_text(&mut s, *a, *b, *c, *d);
                proof {
                    assert(s@ =~= addr_text(*self));
                }
            },
            Address::V6(g0, g1, g2, g3, g4, g5, g6, g7) => {
                let mut g: Vec<u16> = Vec::new();
                g.push(*g0);
                g.push(*g1);
                g.push(*g2);
                g.push(*g3);
                g.push(*g4);
                g.push(*g5);
                g.push(*g6);
                g.push(*g7);
                proof {
                    assert(g@ =~= v6_groups(*self));
                }
                if *g0 == 0 && *g1 == 0 && *g2 == 0 && *g3 == 0 && *g4 == 0 && *g5 == 0xffff {
                    proof {
                        reveal_strlit("::ffff:");
                    }
                    s.append("::ffff:");
                    push_v4_text(&mut s, (*g6 / 256) as u8, (*g6 % 256) as u8, (*g7 / 256) as u8, (
                    *g7 % 256) as u8);
                    proof {
                        assert(s@ =~= addr_text(*self));
                    }
                } else {
                    let run = best_run_at(&g, 0);
                    if run.1 > 1 {
                        push_groups(&mut s, &g, 0, run.0);
                        proof {
                            reveal_strlit("::");
                        }
                        s.append("::");
                        push_groups(&mut s, &g, run.0 + run.1, 8);
                        proof {
                            assert(g@.subrange(run.0 as int + run.1 as int, 8) =~= g@.subrange(
                                run.0 as int + run.1 as int,
                                g@.len() as int,
                            ));
                            assert(s@ =~= addr_text(*self));
                        }
                    } else {
                        push_groups(&mut s, &g, 0, 8);
                        proof {
                            assert(g@.subrange(0, 8) =~= g@);
                            assert(s@ =~= addr_text(*self));
                        }
                    }
                }
            },
        }
        s
    }
}

} // verus!
