//! IPv4 addresses of the virtual networks.
//!
//! An address is four octets. As a number it is the 32-bit value with the first octet
//! highest; the addresses of a network are counted off from its gateway in that order.

use vstd::prelude::*;
use vstd::string::*;

verus! {

/// An IPv4 address.
#[derive(Debug, Clone, Copy, PartialEq, Eq, Structural)]
pub struct Ipv4Address {
    pub a: u8,
    pub b: u8,
    pub c: u8,
    pub d: u8,
}

/// The decimal digit `d` as a character.
pub open spec fn digit_char(d: int) -> char {
    if d == 0 {
        '0'
    } else if d == 1 {
        '1'
    } else if d == 2 {
        '2'
    } else if d == 3 {
        '3'
    } else if d == 4 {
        '4'
    } else if d == 5 {
        '5'
    } else if d == 6 {
        '6'
    } else if d == 7 {
        '7'
    } else if d == 8 {
        '8'
    } else {
        '9'
    }
}

/// `n` in decimal, without leading zeros.
pub open spec fn decimal_text(n: nat) -> Seq<char>
    decreases n,
{
    if n < 10 {
        seq![digit_char(n as int)]
    } else {
        decimal_text(n / 10).push(digit_char((n % 10) as int))
    }
}

/// The address whose number is `value` modulo 2^32.
pub open spec fn address_of_value(value: int) -> Ipv4Address {
    let v = value % 0x1_0000_0000;
    Ipv4Address {
        a: (v / 0x100_0000) as u8,
        b: (v / 0x1_0000 % 0x100) as u8,
        c: (v / 0x100 % 0x100) as u8,
        d: (v % 0x100) as u8,
    }
}

impl Ipv4Address {
    /// The address as a number.
    pub open spec fn value(self) -> int {
        self.a * 0x100_0000 + self.b * 0x1_0000 + self.c * 0x100 + self.d
    }

    /// The address `n` places behind this one, counting round at the end of the
    /// address space.
    pub open spec fn spec_offset(self, n: int) -> Ipv4Address {
        address_of_value(self.value() + n)
    }

    /// The address in dotted decimal, as in `172.17.0.2`.
    pub open spec fn text(self) -> Seq<char> {
        decimal_text(self.a as nat) + seq!['.'] + decimal_text(self.b as nat) + seq!['.']
            + decimal_text(self.c as nat) + seq!['.'] + decimal_text(self.d as nat)
    }

    /// The address `a.b.c.d`.
    pub fn new(a: u8, b: u8, c: u8, d: u8) -> (r: Self)
        ensures
            r == (Ipv4Address { a, b, c, d }),
    {
        Ipv4Address { a, b, c, d }
    }

    /// The four octets, first to last.
    pub fn octets(&self) -> (r: [u8; 4])
        ensures
            r@ == seq![self.a, self.b, self.c, self.d],
    {
        [self.a, self.b, self.c, self.d]
    }

    /// The address `n` places behind this one.
    pub fn offset(&self, n: usize) -> (r: Self)
        ensures
            r == self.spec_offset(n as int),
    {
        self.behind(n as u128)
    }

    /// The address `n + 1` places behind this one: that of the `n`-th of those that
    /// follow it, counted from zero.
    pub fn following(&self, n: usize) -> (r: Self)
        ensures
            r == self.spec_offset(n + 1),
    {
        self.behind(n as u128 + 1)
    }

    fn behind(&self, n: u128) -> (r: Self)
        requires
            n <= usize::MAX + 1,
        ensures
            r == self.spec_offset(n as int),
    {
        let value: u128 = self.a as u128 * 0x100_0000 + self.b as u128 * 0x1_0000 + self.c as u128
            * 0x100 + self.d as u128;
        let v: u128 = (value + n) % 0x1_0000_0000;
        Ipv4Address {
            a: (v / 0x100_0000) as u8,
            b: (v / 0x1_0000 % 0x100) as u8,
            c: (v / 0x100 % 0x100) as u8,
            d: (v % 0x100) as u8,
        }
    }

    /// The address in dotted decimal.
    pub fn to_string(&self) -> (s: String)
        ensures
            s@ == self.text(),
    {
        let mut s = octet_text(self.a);
        proof {
            reveal_strlit(".");
            assert("."@ == seq!['.']);
        }
        s.append(".");
        s.append(octet_text(self.b).as_str());
        s.append(".");
        s.append(octet_text(self.c).as_str());
        s.append(".");
        s.append(octet_text(self.d).as_str());
        s
    }
}

/// One decimal digit as text.
fn digit_text(d: u8) -> (s: &'static str)
    requires
        d < 10,
    ensures
        s@ == seq![digit_char(d as int)],
{
    proof {
        reveal_strlit("0");
        reveal_strlit("1");
        reveal_strlit("2");
        reveal_strlit("3");
        reveal_strlit("4");
        reveal_strlit("5");
        reveal_strlit("6");
        reveal_strlit("7");
        reveal_strlit("8");
        reveal_strlit("9");
    }
    let s = if d == 0 {
        "0"
    } else if d == 1 {
        "1"
    } else if d == 2 {
        "2"
    } else if d == 3 {
        "3"
    } else if d == 4 {
        "4"
    } else if d == 5 {
        "5"
    } else if d == 6 {
        "6"
    } else if d == 7 {
        "7"
    } else if d == 8 {
        "8"
    } else {
        "9"
    };
    assert(s@ =~= seq![digit_char(d as int)]);
    s
}

/// An octet in decimal.
fn octet_text(n: u8) -> (s: String)
    ensures
        s@ == decimal_text(n as nat),
{
    let mut s = String::new();
    if n >= 100 {
        s.append(digit_text(n / 100));
    }
    if n >= 10 {
        s.append(digit_text(n / 10 % 10));
    }
    s.append(digit_text(n % 10));
    proof {
        reveal_with_fuel(decimal_text, 3);
        assert(s@ =~= decimal_text(n as nat));
    }
    s
}

} // verus!
