//! IPv4 addresses in dotted-decimal text.

use vstd::prelude::*;
use crate::error::LookupError;
use crate::text::{chars_of, decimal, digit_char, push_decimal, string_of, trim_chars, trimmed};

verus! {

/// An IPv4 address, by its four octets in network order.
#[derive(Clone, Copy, Debug, PartialEq, Eq, Structural)]
pub struct Ipv4Address {
    pub a: u8,
    pub b: u8,
    pub c: u8,
    pub d: u8,
}

/// Whether `c` is one of the ten decimal digits.
pub open spec fn is_digit(c: char) -> bool {
    '0' <= c <= '9'
}

/// Whether `s` is the decimal numeral of some octet.
pub open spec fn is_octet_text(s: Seq<char>) -> bool {
    exists|n: u8| s == decimal(n as nat)
}

/// Whether `s` is the dotted-decimal text of some address.
pub open spec fn is_ipv4_text(s: Seq<char>) -> bool {
    exists|addr: Ipv4Address| s == addr.text()
}

impl Ipv4Address {
    /// The dotted-decimal text of the address: four decimal numerals without
    /// leading zeros, with a `.` between them.
    pub open spec fn text(self) -> Seq<char> {
        decimal(self.a as nat) + seq!['.'] + decimal(self.b as nat) + seq!['.'] + decimal(
            self.c as nat,
        ) + seq!['.'] + decimal(self.d as nat)
    }

    /// The characters of the dotted-decimal text.
    pub fn to_chars(&self) -> (r: Vec<char>)
        ensures
            r@ == self.text(),
    {
        let mut r: Vec<char> = Vec::new();
        push_decimal(&mut r, self.a as u64);
        r.push('.');
        push_decimal(&mut r, self.b as u64);
        r.push('.');
        push_decimal(&mut r, self.c as u64);
        r.push('.');
        push_decimal(&mut r, self.d as u64);
        assert(r@ =~= self.text());
        r
    }

    /// The dotted-decimal text.
    pub fn to_text(&self) -> (r: String)
        ensures
            r@ == self.text(),
    {
        string_of(&self.to_chars())
    }
}

/// The numeral of an octet has one to three digits, the first of them `0`
/// only when it stands alone.
pub proof fn lemma_octet_shape(n: nat)
    requires
        n < 256,
    ensures
        n < 10 ==> decimal(n) =~= seq![digit_char(n)],
        10 <= n < 100 ==> decimal(n) =~= seq![digit_char(n / 10), digit_char(n % 10)],
        100 <= n ==> decimal(n) =~= seq![
            digit_char(n / 100),
            digit_char((n / 10) % 10),
            digit_char(n % 10),
        ],
        1 <= decimal(n).len() <= 3,
        forall|i: int| 0 <= i < decimal(n).len() ==> is_digit(#[trigger] decimal(n)[i]),
{
    reveal_with_fuel(decimal, 4);
    if n >= 100 {
        assert((n / 10) / 10 == n / 100);
    }
}

/// Two octets with the same numeral are the same octet.
pub proof fn lemma_octet_injective(m: nat, n: nat)
    requires
        m < 256,
        n < 256,
        decimal(m) == decimal(n),
    ensures
        m == n,
{
    lemma_octet_shape(m);
    lemma_octet_shape(n);
    let s = decimal(m);
    assert(s.len() == decimal(n).len());
    if m < 10 {
        assert(s[0] == digit_char(m) && s[0] == digit_char(n));
    } else if m < 100 {
        assert(s[0] == digit_char(m / 10) && s[0] == digit_char(n / 10));
        assert(s[1] == digit_char(m % 10) && s[1] == digit_char(n % 10));
    } else {
        assert(s[0] == digit_char(m / 100) && s[0] == digit_char(n / 100));
        assert(s[1] == digit_char((m / 10) % 10) && s[1] == digit_char((n / 10) % 10));
        assert(s[2] == digit_char(m % 10) && s[2] == digit_char(n % 10));
    }
}


/// Where the fields of a dotted-decimal text lie: the text has exactly three
/// dots, at `k1 < k2 < k3`, and the four numerals stand between them.
proof fn lemma_text_layout(addr: Ipv4Address) -> (p: (int, int, int))
    ensures
        ({
            let s = addr.text();
            let (k1, k2, k3) = p;
            &&& 0 < k1 < k2 < k3 < s.len()
            &&& s[k1] == '.' && s[k2] == '.' && s[k3] == '.'
            &&& forall|i: int|
                0 <= i < s.len() && i != k1 && i != k2 && i != k3 ==> is_digit(#[trigger] s[i])
            &&& s.subrange(0, k1) == decimal(addr.a as nat)
            &&& s.subrange(k1 + 1, k2) == decimal(addr.b as nat)
            &&& s.subrange(k2 + 1, k3) == decimal(addr.c as nat)
            &&& s.subrange(k3 + 1, s.len() as int) == decimal(addr.d as nat)
        }),
{
    let s = addr.text();
    let fa = decimal(addr.a as nat);
    let fb = decimal(addr.b as nat);
    let fc = decimal(addr.c as nat);
    let fd = decimal(addr.d as nat);
    lemma_octet_shape(addr.a as nat);
    lemma_octet_shape(addr.b as nat);
    lemma_octet_shape(addr.c as nat);
    lemma_octet_shape(addr.d as nat);
    let k1 = fa.len() as int;
    let k2 = k1 + 1 + fb.len();
    let k3 = k2 + 1 + fc.len();
    assert(s.len() == k3 + 1 + fd.len());
    assert forall|i: int| 0 <= i < s.len() && i != k1 && i != k2 && i != k3 implies is_digit(
        #[trigger] s[i],
    ) by {
        if i < k1 {
            assert(s[i] == fa[i]);
        } else if i < k2 {
            assert(s[i] == fb[i - k1 - 1]);
        } else if i < k3 {
            assert(s[i] == fc[i - k2 - 1]);
        } else {
            assert(s[i] == fd[i - k3 - 1]);
        }
    }
    assert(s.subrange(0, k1) =~= fa);
    assert(s.subrange(k1 + 1, k2) =~= fb);
    assert(s.subrange(k2 + 1, k3) =~= fc);
    assert(s.subrange(k3 + 1, s.len() as int) =~= fd);
    (k1, k2, k3)
}

/// Two addresses with the same dotted-decimal text are the same address.
pub proof fn lemma_text_injective(x: Ipv4Address, y: Ipv4Address)
    requires
        x.text() == y.text(),
    ensures
        x == y,
{
    let (k1, k2, k3) = lemma_text_layout(x);
    let (m1, m2, m3) = lemma_text_layout(y);
    let s = x.text();
    assert(k1 == m1) by {
        if k1 < m1 {
            assert(is_digit(s[k1]));
        } else if m1 < k1 {
            assert(is_digit(s[m1]));
        }
    }
    assert(k2 == m2) by {
        if k2 < m2 {
            assert(is_digit(s[k2]));
        } else if m2 < k2 {
            assert(is_digit(s[m2]));
        }
    }
    assert(k3 == m3) by {
        if k3 < m3 {
            assert(is_digit(s[k3]));
        } else if m3 < k3 {
            assert(is_digit(s[m3]));
        }
    }
    lemma_octet_injective(x.a as nat, y.a as nat);
    lemma_octet_injective(x.b as nat, y.b as nat);
    lemma_octet_injective(x.c as nat, y.c as nat);
    lemma_octet_injective(x.d as nat, y.d as nat);
}

/// The value of a decimal digit.
fn digit_value(c: char) -> (r: Option<u8>)
    ensures
        match r {
            Some(d) => d < 10 && c == digit_char(d as nat),
            None => !is_digit(c),
        },
{
    if '0' <= c && c <= '9' {
        let u: u8 = c as u8;
        Some(u - 48)
    } else {
        None
    }
}

/// The octet whose numeral stands in `v` from `from` up to `to`.
fn parse_octet(v: &Vec<char>, from: usize, to: usize) -> (r: Option<u8>)
    requires
        from <= to <= v.len(),
    ensures
        match r {
            Some(n) => v@.subrange(from as int, to as int) == decimal(n as nat),
            None => !is_octet_text(v@.subrange(from as int, to as int)),
        },
{
    let ghost s = v@.subrange(from as int, to as int);
    let len = to - from;
    proof {
        assert forall|n: u8| s == decimal(n as nat) implies 1 <= len <= 3 by {
            lemma_octet_shape(n as nat);
        }
    }
    if len == 0 || len > 3 {
        return None;
    }
    let mut value: u16 = 0;
    let mut i: usize = 0;
    while i < len
        invariant
            0 <= i <= len <= 3,
            len == to - from,
            to <= v.len(),
            s == v@.subrange(from as int, to as int),
            i == 0 ==> value == 0,
            i == 1 ==> exists|d0: nat| d0 < 10 && s[0] == digit_char(d0) && value == d0,
            i == 2 ==> exists|d0: nat, d1: nat|
                d0 < 10 && d1 < 10 && s[0] == digit_char(d0) && s[1] == digit_char(d1) && value
                    == 10 * d0 + d1,
            i == 3 ==> exists|d0: nat, d1: nat, d2: nat|
                d0 < 10 && d1 < 10 && d2 < 10 && s[0] == digit_char(d0) && s[1] == digit_char(d1)
                    && s[2] == digit_char(d2) && value == 100 * d0 + 10 * d1 + d2,
            i >= 1 && len > 1 ==> s[0] != '0',
        decreases len - i,
    {
        let c = v[from + i];
        assert(c == s[i as int]);
        match digit_value(c) {
            None => {
                proof {
                    assert forall|n: u8| s != decimal(n as nat) by {
                        lemma_octet_shape(n as nat);
                        if s == decimal(n as nat) {
                            assert(is_digit(decimal(n as nat)[i as int]));
                        }
                    }
                }
                return None;
            },
            Some(d) => {
                if i == 0 && len > 1 && d == 0 {
                    proof {
                        assert forall|n: u8| s != decimal(n as nat) by {
                            lemma_octet_shape(n as nat);
                        }
                    }
                    return None;
                }
                value = value * 10 + d as u16;
            },
        }
        i += 1;
    }
    if value > 255 {
        proof {
            assert forall|n: u8| s != decimal(n as nat) by {
                lemma_octet_shape(n as nat);
            }
        }
        return None;
    }
    let n: u8 = value as u8;
    proof {
        lemma_octet_shape(n as nat);
        assert(s =~= decimal(n as nat));
    }
    Some(n)
}

/// The position of the first `.` at or after `from`, or the length of `v`
/// where there is none.
fn find_dot(v: &Vec<char>, from: usize) -> (r: usize)
    requires
        from <= v.len(),
    ensures
        from <= r <= v.len(),
        forall|i: int| from <= i < r ==> #[trigger] v@[i] != '.',
        r < v.len() ==> v@[r as int] == '.',
{
    let mut r: usize = from;
    while r < v.len() && v[r] != '.'
        invariant
            from <= r <= v.len(),
            forall|i: int| from <= i < r ==> #[trigger] v@[i] != '.',
        decreases v.len() - r,
    {
        r += 1;
    }
    r
}

/// The address whose dotted-decimal text is `v`, if there is one.
pub fn parse_ipv4(v: &Vec<char>) -> (r: Option<Ipv4Address>)
    ensures
        match r {
            Some(addr) => v@ == addr.text(),
            None => !is_ipv4_text(v@),
        },
{
    let n = v.len();
    let d1 = find_dot(v, 0);
    if d1 >= n {
        proof {
            assert forall|addr: Ipv4Address| v@ != addr.text() by {
                let (k1, k2, k3) = lemma_text_layout(addr);
            }
        }
        return None;
    }
    let d2 = find_dot(v, d1 + 1);
    if d2 >= n {
        proof {
            assert forall|addr: Ipv4Address| v@ != addr.text() by {
                let (k1, k2, k3) = lemma_text_layout(addr);
                if v@ == addr.text() {
                    assert(d1 == k1) by {
                        if d1 < k1 {
                            assert(is_digit(v@[d1 as int]));
                        }
                    }
                }
            }
        }
        return None;
    }
    let d3 = find_dot(v, d2 + 1);
    if d3 >= n {
        proof {
            assert forall|addr: Ipv4Address| v@ != addr.text() by {
                let (k1, k2, k3) = lemma_text_layout(addr);
                if v@ == addr.text() {
                    assert(d1 == k1) by {
                        if d1 < k1 {
                            assert(is_digit(v@[d1 as int]));
                        }
                    }
                    assert(d2 == k2) by {
                        if d2 < k2 {
                            assert(is_digit(v@[d2 as int]));
                        }
                    }
                }
            }
        }
        return None;
    }
    let d4 = find_dot(v, d3 + 1);
    let a = parse_octet(v, 0, d1);
    let b = parse_octet(v, d1 + 1, d2);
    let c = parse_octet(v, d2 + 1, d3);
    let d = parse_octet(v, d3 + 1, n);
    if d4 == n {
        if let (Some(a), Some(b), Some(c), Some(d)) = (a, b, c, d) {
            let addr = Ipv4Address { a, b, c, d };
            proof {
                let s = v@;
                assert(s =~= s.subrange(0, d1 as int) + seq!['.'] + s.subrange(
                    d1 + 1,
                    d2 as int,
                ) + seq!['.'] + s.subrange(d2 + 1, d3 as int) + seq!['.'] + s.subrange(
                    d3 + 1,
                    n as int,
                ));
            }
            return Some(addr);
        }
    }
    proof {
        assert forall|addr: Ipv4Address| v@ != addr.text() by {
            let (k1, k2, k3) = lemma_text_layout(addr);
            if v@ == addr.text() {
                assert(d1 == k1) by {
                    if d1 < k1 {
                        assert(is_digit(v@[d1 as int]));
                    }
                }
                assert(d2 == k2) by {
                    if d2 < k2 {
                        assert(is_digit(v@[d2 as int]));
                    }
                }
                assert(d3 == k3) by {
                    if d3 < k3 {
                        assert(is_digit(v@[d3 as int]));
                    }
                }
                assert(d4 == n) by {
                    if d4 < n {
                        assert(is_digit(v@[d4 as int]));
                    }
                }
            }
        }
    }
    None
}

/// The address that `ip_str` writes, the whitespace around it set aside. A
/// text that writes no address is handed back in the error as it was given.
pub fn validate_ipv4(ip_str: &str) -> (r: Result<Ipv4Address, LookupError>)
    ensures
        match r {
            Ok(addr) => trimmed(ip_str@) == addr.text(),
            Err(LookupError::InvalidAddress(t)) => !is_ipv4_text(trimmed(ip_str@)) && t@
                == ip_str@,
            Err(_) => false,
        },
{
    let given = chars_of(ip_str);
    match parse_ipv4(&trim_chars(&given)) {
        Some(addr) => Ok(addr),
        None => Err(LookupError::InvalidAddress(ip_str.to_owned())),
    }
}

} // verus!
