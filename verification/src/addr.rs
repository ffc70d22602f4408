//! Text for socket addresses, as the key hash of a connection reads them:
//! `a.b.c.d:port` for IPv4, eight lower-case hexadecimal segments in
//! brackets and the port for IPv6.
use vstd::prelude::*;

verus! {

/// An IP address by its parts: four octets, or eight 16-bit segments.
pub enum HostAddr {
    V4([u8; 4]),
    V6([u16; 8]),
}

/// The character of digit `d` (0 to 15), lower case above 9.
pub open spec fn digit_char(d: nat) -> char {
    if d == 0 {
        '0'
    } else if d == 1 {
        '1'
    } else if d == 2 {
        '2'
    } else if d == 3 {
        '3'
    } else if d == 4 {
        '4'
    } else if d == 5 {
        '5'
    } else if d == 6 {
        '6'
    } else if d == 7 {
        '7'
    } else if d == 8 {
        '8'
    } else if d == 9 {
        '9'
    } else if d == 10 {
        'a'
    } else if d == 11 {
        'b'
    } else if d == 12 {
        'c'
    } else if d == 13 {
        'd'
    } else if d == 14 {
        'e'
    } else {
        'f'
    }
}

/// The digits of `n` in base `base` (10 or 16), most significant first,
/// without leading zeros; `0` is one digit.
pub open spec fn digits(n: nat, base: nat) -> Seq<char>
    decreases n,
{
    if base < 2 || n < base {
        seq![digit_char(n)]
    } else {
        proof {
            assert(n / base < n) by (nonlinear_arith)
                requires
                    base >= 2,
                    n >= base,
            ;
        }
        digits(n / base, base) + seq![digit_char(n % base)]
    }
}

/// The text of address `a` with port `port`.
pub open spec fn spec_addr_str(a: HostAddr, port: u16) -> Seq<char> {
    match a {
        HostAddr::V4(o) => digits(o@[0] as nat, 10) + seq!['.'] + digits(o@[1] as nat, 10) + seq!['.']
            + digits(o@[2] as nat, 10) + seq!['.'] + digits(o@[3] as nat, 10) + seq![':'] + digits(
            port as nat,
            10,
        ),
        HostAddr::V6(s) => seq!['['] + digits(s@[0] as nat, 16) + seq![':'] + digits(s@[1] as nat, 16)
            + seq![':'] + digits(s@[2] as nat, 16) + seq![':'] + digits(s@[3] as nat, 16) + seq![':']
            + digits(s@[4] as nat, 16) + seq![':'] + digits(s@[5] as nat, 16) + seq![':'] + digits(
            s@[6] as nat,
            16,
        ) + seq![':'] + digits(s@[7] as nat, 16) + seq![']', ':'] + digits(port as nat, 10),
    }
}

/// The one-character text of digit `d`.
fn digit_str(d: u64) -> (r: &'static str)
    requires
        d < 16,
    ensures
        r@ == seq![digit_char(d as nat)],
{
    proof {
        reveal_strlit("0");
        reveal_strlit("1");
        reveal_strlit("2");
        reveal_strlit("3");
        reveal_strlit("4");
        reveal_strlit("5");
        reveal_strlit("6");
        reveal_strlit("7");
        reveal_strlit("8");
        reveal_strlit("9");
        reveal_strlit("a");
        reveal_strlit("b");
        reveal_strlit("c");
        reveal_strlit("d");
        reveal_strlit("e");
        reveal_strlit("f");
    }
    if d == 0 {
        "0"
    } else if d == 1 {
        "1"
    } else if d == 2 {
        "2"
    } else if d == 3 {
        "3"
    } else if d == 4 {
        "4"
    } else if d == 5 {
        "5"
    } else if d == 6 {
        "6"
    } else if d == 7 {
        "7"
    } else if d == 8 {
        "8"
    } else if d == 9 {
        "9"
    } else if d == 10 {
        "a"
    } else if d == 11 {
        "b"
    } else if d == 12 {
        "c"
    } else if d == 13 {
        "d"
    } else if d == 14 {
        "e"
    } else {
        "f"
    }
}

/// Appends the digits of `n` in base `base` to `s`.
fn push_digits(s: &mut String, n: u64, base: u64)
    requires
        base == 10 || base == 16,
    ensures
        final(s)@ == old(s)@ + digits(n as nat, base as nat),
    decreases n,
{
    if n >= base {
        assert(n / base < n) by (nonlinear_arith)
            requires
                base >= 2,
                n >= base,
        ;
        push_digits(s, n / base, base);
    } else {
        assert(n % base == n) by (nonlinear_arith)
            requires
                base >= 2,
                n < base,
        ;
    }
    s.append(digit_str(n % base));
    assert(s@ =~= old(s)@ + digits(n as nat, base as nat));
}

/// Appends the text `t` to `s`.
fn push_str(s: &mut String, t: &str)
    ensures
        final(s)@ == old(s)@ + t@,
{
    s.append(t);
}

/// The text of address `addr` with port `port`.
pub fn addr_str(addr: &HostAddr, port: u16) -> (r: String)
    ensures
        r@ == spec_addr_str(*addr, port),
{
    proof {
        reveal_strlit(".");
        reveal_strlit(":");
        reveal_strlit("[");
        reveal_strlit("]:");
    }
    let mut s = String::new();
    match addr {
        HostAddr::V4(o) => {
            push_digits(&mut s, o[0] as u64, 10);
            push_str(&mut s, ".");
            push_digits(&mut s, o[1] as u64, 10);
            push_str(&mut s, ".");
            push_digits(&mut s, o[2] as u64, 10);
            push_str(&mut s, ".");
            push_digits(&mut s, o[3] as u64, 10);
            push_str(&mut s, ":");
        },
        HostAddr::V6(g) => {
            push_str(&mut s, "[");
            push_digits(&mut s, g[0] as u64, 16);
            push_str(&mut s, ":");
            push_digits(&mut s, g[1] as u64, 16);
            push_str(&mut s, ":");
            push_digits(&mut s, g[2] as u64, 16);
            push_str(&mut s, ":");
            push_digits(&mut s, g[3] as u64, 16);
            push_str(&mut s, ":");
            push_digits(&mut s, g[4] as u64, 16);
            push_str(&mut s, ":");
            push_digits(&mut s, g[5] as u64, 16);
            push_str(&mut s, ":");
            push_digits(&mut s, g[6] as u64, 16);
            push_str(&mut s, ":");
            push_digits(&mut s, g[7] as u64, 16);
            push_str(&mut s, "]:");
        },
    }
    push_digits(&mut s, port as u64, 10);
    assert(s@ =~= spec_addr_str(*addr, port));
    s
}

} // verus!
