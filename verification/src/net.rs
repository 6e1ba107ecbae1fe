//! IPv4 addresses as four octets, with their dotted-decimal text form.
use vstd::prelude::*;
use vstd::string::StringExecFns;
use vstd::string::StrSliceExecFns;

verus! {

/// An IPv4 address, held as its four octets in network order.
#[derive(Clone, Copy, Debug, PartialEq, Eq, Structural)]
pub struct Ipv4Addr {
    pub a: u8,
    pub b: u8,
    pub c: u8,
    pub d: u8,
}

/// The character of the decimal digit `d` (for `d < 10`).
pub open spec fn digit_char(d: nat) -> char {
    (48 + d) as char
}

/// Whether `c` is one of the ASCII digits `'0'..='9'`.
pub open spec fn is_digit(c: char) -> bool {
    48 <= c as int <= 57
}

/// The numeric value of the digit character `c`.
pub open spec fn digit_value(c: char) -> nat {
    (c as int - 48) as nat
}

/// The canonical decimal text of `n`: no sign, no leading zeros.
pub open spec fn decimal(n: nat) -> Seq<char>
    decreases n,
{
    if n < 10 {
        seq![digit_char(n)]
    } else {
        decimal(n / 10).push(digit_char(n % 10))
    }
}

/// The dotted-decimal text of an address, as `Display` writes it: `a.b.c.d`.
pub open spec fn ipv4_text(ip: Ipv4Addr) -> Seq<char> {
    decimal(ip.a as nat) + seq!['.'] + decimal(ip.b as nat) + seq!['.'] + decimal(ip.c as nat)
        + seq!['.'] + decimal(ip.d as nat)
}

/// The decimal text of a byte value has one to three digits, the first of
/// them nonzero unless the value is zero.
pub proof fn lemma_decimal_byte(n: nat)
    requires
        n < 256,
    ensures
        1 <= decimal(n).len() <= 3,
        decimal(n).len() == (if n < 10 { 1int } else if n < 100 { 2int } else { 3int }),
        forall|i: int| 0 <= i < decimal(n).len() ==> is_digit(#[trigger] decimal(n)[i]),
        decimal(n).len() > 1 ==> decimal(n)[0] != '0',
        n < 10 ==> decimal(n) == seq![digit_char(n)],
        10 <= n < 100 ==> decimal(n) == seq![digit_char(n / 10), digit_char(n % 10)],
        100 <= n ==> decimal(n) == seq![digit_char(n / 100), digit_char((n / 10) % 10), digit_char(n % 10)],
{
    if n < 10 {
    } else if n < 100 {
        assert(decimal(n / 10) == seq![digit_char(n / 10)]);
        assert(decimal(n) =~= seq![digit_char(n / 10), digit_char(n % 10)]);
    } else {
        assert((n / 10) / 10 == n / 100);
        assert(decimal(n / 100) == seq![digit_char(n / 100)]);
        assert(decimal(n / 10) =~= seq![digit_char(n / 100), digit_char((n / 10) % 10)]);
        assert(decimal(n) =~= seq![digit_char(n / 100), digit_char((n / 10) % 10), digit_char(n % 10)]);
    }
}

/// The text of one decimal digit.
fn digit_str(d: u8) -> (r: &'static str)
    requires
        d < 10,
    ensures
        r@ == seq![digit_char(d as nat)],
{
    if d == 0 {
        proof { reveal_strlit("0"); }
        "0"
    } else if d == 1 {
        proof { reveal_strlit("1"); }
        "1"
    } else if d == 2 {
        proof { reveal_strlit("2"); }
        "2"
    } else if d == 3 {
        proof { reveal_strlit("3"); }
        "3"
    } else if d == 4 {
        proof { reveal_strlit("4"); }
        "4"
    } else if d == 5 {
        proof { reveal_strlit("5"); }
        "5"
    } else if d == 6 {
        proof { reveal_strlit("6"); }
        "6"
    } else if d == 7 {
        proof { reveal_strlit("7"); }
        "7"
    } else if d == 8 {
        proof { reveal_strlit("8"); }
        "8"
    } else {
        proof { reveal_strlit("9"); }
        "9"
    }
}

/// Appends the canonical decimal text of `n` to `s`.
pub fn append_decimal(s: &mut String, n: u64)
    ensures
        final(s)@ == old(s)@ + decimal(n as nat),
    decreases n,
{
    if n >= 10 {
        append_decimal(s, n / 10);
    }
    let d = (n % 10) as u8;
    s.append(digit_str(d));
    assert(s@ =~= old(s)@ + decimal(n as nat));
}

/// The address whose big-endian 32-bit number is `bits`.
pub open spec fn ip_from_bits(bits: u32) -> Ipv4Addr {
    Ipv4Addr {
        a: (bits as int / 0x1000000) as u8,
        b: ((bits as int / 0x10000) % 0x100) as u8,
        c: ((bits as int / 0x100) % 0x100) as u8,
        d: (bits as int % 0x100) as u8,
    }
}

/// The 32-bit number of an address and the address of a 32-bit number undo
/// each other.
pub proof fn lemma_bits_roundtrip(bits: u32)
    ensures
        ip_from_bits(bits).spec_bits() == bits,
        forall|ip: Ipv4Addr| #[trigger] ip_from_bits(ip.spec_bits()) == ip,
{
    let x = bits as int;
    assert(x == (x / 0x1000000) * 0x1000000 + ((x / 0x10000) % 0x100) * 0x10000 + ((x / 0x100) % 0x100)
        * 0x100 + x % 0x100) by (nonlinear_arith)
        requires
            0 <= x < 0x100000000,
    ;
    assert forall|ip: Ipv4Addr| #[trigger] ip_from_bits(ip.spec_bits()) == ip by {
        let y = ip.a as int * 0x1000000 + ip.b as int * 0x10000 + ip.c as int * 0x100 + ip.d as int;
        let (a, b, c, d) = (ip.a as int, ip.b as int, ip.c as int, ip.d as int);
        assert(y / 0x1000000 == a && (y / 0x10000) % 0x100 == b && (y / 0x100) % 0x100 == c && y
            % 0x100 == d) by (nonlinear_arith)
            requires
                y == a * 0x1000000 + b * 0x10000 + c * 0x100 + d,
                0 <= a < 256,
                0 <= b < 256,
                0 <= c < 256,
                0 <= d < 256,
        ;
    }
}

impl Ipv4Addr {
    /// Builds the address `a.b.c.d`.
    pub fn new(a: u8, b: u8, c: u8, d: u8) -> (r: Ipv4Addr)
        ensures
            r == (Ipv4Addr { a, b, c, d }),
    {
        Ipv4Addr { a, b, c, d }
    }

    /// The address as a big-endian 32-bit number (the first octet is the high byte).
    pub open spec fn spec_bits(self) -> u32 {
        (self.a as int * 0x1000000 + self.b as int * 0x10000 + self.c as int * 0x100
            + self.d as int) as u32
    }

    /// Returns the address as a big-endian 32-bit number.
    pub fn to_bits(&self) -> (r: u32)
        ensures
            r == self.spec_bits(),
            r as int == self.a as int * 0x1000000 + self.b as int * 0x10000 + self.c as int
                * 0x100 + self.d as int,
    {
        (self.a as u32) * 0x1000000 + (self.b as u32) * 0x10000 + (self.c as u32) * 0x100
            + (self.d as u32)
    }

    /// Builds the address whose big-endian 32-bit number is `bits`
    /// (the first octet is the high byte).
    pub fn from_bits(bits: u32) -> (r: Ipv4Addr)
        ensures
            r == ip_from_bits(bits),
            r.spec_bits() == bits,
    {
        proof {
            lemma_bits_roundtrip(bits);
        }
        Ipv4Addr {
            a: (bits / 0x1000000) as u8,
            b: ((bits / 0x10000) % 0x100) as u8,
            c: ((bits / 0x100) % 0x100) as u8,
            d: (bits % 0x100) as u8,
        }
    }

    /// The four octets, first octet first.
    pub fn octets(&self) -> (r: [u8; 4])
        ensures
            r@ == seq![self.a, self.b, self.c, self.d],
    {
        [self.a, self.b, self.c, self.d]
    }

    /// The dotted-decimal text of the address, as `Display` writes it.
    pub fn to_string(&self) -> (r: String)
        ensures
            r@ == ipv4_text(*self),
    {
        let mut s = String::new();
        append_decimal(&mut s, self.a as u64);
        s.append(".");
        append_decimal(&mut s, self.b as u64);
        s.append(".");
        append_decimal(&mut s, self.c as u64);
        s.append(".");
        append_decimal(&mut s, self.d as u64);
        proof {
            reveal_strlit(".");
            assert(s@ =~= ipv4_text(*self));
        }
        s
    }
}

/// Where the separators and the octet texts of an address's text lie.
pub proof fn lemma_ipv4_text_shape(ip: Ipv4Addr)
    ensures
        ({
            let t = ipv4_text(ip);
            let l0 = decimal(ip.a as nat).len() as int;
            let l1 = decimal(ip.b as nat).len() as int;
            let l2 = decimal(ip.c as nat).len() as int;
            let l3 = decimal(ip.d as nat).len() as int;
            let q0 = l0;
            let q1 = q0 + 1 + l1;
            let q2 = q1 + 1 + l2;
            &&& 7 <= t.len() <= 15
            &&& t.len() == q2 + 1 + l3
            &&& t[q0] == '.' && t[q1] == '.' && t[q2] == '.'
            &&& t.subrange(0, q0) == decimal(ip.a as nat)
            &&& t.subrange(q0 + 1, q1) == decimal(ip.b as nat)
            &&& t.subrange(q1 + 1, q2) == decimal(ip.c as nat)
            &&& t.subrange(q2 + 1, t.len() as int) == decimal(ip.d as nat)
            &&& forall|i: int|
                0 <= i < t.len() && i != q0 && i != q1 && i != q2 ==> is_digit(#[trigger] t[i])
        }),
{
    lemma_decimal_byte(ip.a as nat);
    lemma_decimal_byte(ip.b as nat);
    lemma_decimal_byte(ip.c as nat);
    lemma_decimal_byte(ip.d as nat);
    let t = ipv4_text(ip);
    let da = decimal(ip.a as nat);
    let db = decimal(ip.b as nat);
    let dc = decimal(ip.c as nat);
    let dd = decimal(ip.d as nat);
    let q0 = da.len() as int;
    let q1 = q0 + 1 + db.len();
    let q2 = q1 + 1 + dc.len();
    assert(t.subrange(0, q0) =~= da);
    assert(t.subrange(q0 + 1, q1) =~= db);
    assert(t.subrange(q1 + 1, q2) =~= dc);
    assert(t.subrange(q2 + 1, t.len() as int) =~= dd);
    assert forall|i: int| 0 <= i < t.len() && i != q0 && i != q1 && i != q2 implies is_digit(
        #[trigger] t[i],
    ) by {
        if i < q0 {
            assert(t[i] == da[i]);
        } else if i < q1 {
            assert(t[i] == db[i - q0 - 1]);
        } else if i < q2 {
            assert(t[i] == dc[i - q1 - 1]);
        } else {
            assert(t[i] == dd[i - q2 - 1]);
        }
    }
}

/// `e` is the first `'.'` at or after `from` in `cs`, or the end of `cs`.
pub open spec fn next_dot(cs: Seq<char>, from: int, e: int) -> bool {
    &&& from <= e <= cs.len()
    &&& forall|i: int| from <= i < e ==> cs[i] != '.'
    &&& e < cs.len() ==> cs[e] == '.'
}

/// Finds the first `'.'` at or after `from`, or the end of `cs`.
fn find_dot(cs: &Vec<char>, from: usize) -> (r: usize)
    requires
        from <= cs.len(),
    ensures
        next_dot(cs@, from as int, r as int),
{
    let mut i = from;
    while i < cs.len()
        invariant
            from <= i <= cs.len(),
            forall|k: int| from <= k < i ==> cs@[k] != '.',
        decreases cs.len() - i,
    {
        if cs[i] == '.' {
            return i;
        }
        i = i + 1;
    }
    i
}

/// The value of a digit character, as a byte.
fn digit_of(c: char) -> (r: u8)
    requires
        is_digit(c),
    ensures
        r as nat == digit_value(c),
        r < 10,
        digit_char(r as nat) == c,
{
    ((c as u32) - 48) as u8
}

/// Parses one octet of a dotted-decimal address: the characters
/// `cs[lo..hi]` must be the canonical decimal text of a byte value.
fn parse_octet(cs: &Vec<char>, lo: usize, hi: usize) -> (r: Option<u8>)
    requires
        lo <= hi <= cs.len(),
    ensures
        match r {
            Some(n) => cs@.subrange(lo as int, hi as int) == decimal(n as nat),
            None => forall|n: u8| cs@.subrange(lo as int, hi as int) != decimal(n as nat),
        },
{
    let ghost sub = cs@.subrange(lo as int, hi as int);
    let len = hi - lo;
    if len == 0 || len > 3 {
        proof {
            assert forall|n: u8| sub != decimal(n as nat) by {
                lemma_decimal_byte(n as nat);
            }
        }
        return None;
    }
    let mut k = lo;
    while k < hi
        invariant
            lo <= k <= hi <= cs.len(),
            sub == cs@.subrange(lo as int, hi as int),
            forall|j: int| lo <= j < k ==> is_digit(#[trigger] cs@[j]),
        decreases hi - k,
    {
        let c = cs[k];
        if c < '0' || c > '9' {
            proof {
                assert forall|n: u8| sub != decimal(n as nat) by {
                    lemma_decimal_byte(n as nat);
                    if sub == decimal(n as nat) {
                        assert(sub[k - lo] == cs@[k as int]);
                    }
                }
            }
            return None;
        }
        assert(is_digit(c));
        k = k + 1;
    }
    if len > 1 && cs[lo] == '0' {
        proof {
            assert forall|n: u8| sub != decimal(n as nat) by {
                lemma_decimal_byte(n as nat);
                if sub == decimal(n as nat) {
                    assert(sub[0] == cs@[lo as int]);
                }
            }
        }
        return None;
    }
    let d0 = digit_of(cs[lo]);
    if len == 1 {
        proof {
            lemma_decimal_byte(d0 as nat);
            assert(sub =~= decimal(d0 as nat));
        }
        return Some(d0);
    }
    let d1 = digit_of(cs[lo + 1]);
    if len == 2 {
        let v = d0 * 10 + d1;
        proof {
            lemma_decimal_byte(v as nat);
            assert(sub =~= decimal(v as nat));
        }
        return Some(v);
    }
    let d2 = digit_of(cs[lo + 2]);
    let v: u32 = (d0 as u32) * 100 + (d1 as u32) * 10 + (d2 as u32);
    if v > 255 {
        proof {
            assert forall|n: u8| sub != decimal(n as nat) by {
                lemma_decimal_byte(n as nat);
                if sub == decimal(n as nat) {
                    assert(sub[0] == cs@[lo as int]);
                    assert(sub[1] == cs@[lo + 1]);
                    assert(sub[2] == cs@[lo + 2]);
                    assert(n >= 100);
                    assert(d0 as nat == n as nat / 100);
                    assert(d1 as nat == (n as nat / 10) % 10);
                    assert(d2 as nat == n as nat % 10);
                }
            }
        }
        return None;
    }
    let r = v as u8;
    proof {
        lemma_decimal_byte(r as nat);
        assert(sub =~= decimal(r as nat));
    }
    Some(r)
}

/// The octet of `ip` at position `k` (0 for the first).
pub open spec fn octet_at(ip: Ipv4Addr, k: int) -> u8 {
    if k == 0 {
        ip.a
    } else if k == 1 {
        ip.b
    } else if k == 2 {
        ip.c
    } else {
        ip.d
    }
}

/// Where the text of octet `k` ends in `ipv4_text(ip)` (a dot, or the end).
pub open spec fn octet_end(ip: Ipv4Addr, k: int) -> int
    decreases k,
{
    if k <= 0 {
        decimal(ip.a as nat).len() as int
    } else {
        octet_end(ip, k - 1) + 1 + decimal(octet_at(ip, k) as nat).len()
    }
}

/// Where the text of octet `k` starts in `ipv4_text(ip)`.
pub open spec fn octet_start(ip: Ipv4Addr, k: int) -> int {
    if k <= 0 {
        0
    } else {
        octet_end(ip, k - 1) + 1
    }
}

/// Searching for the next dot from the start of octet `k` in the text of
/// `ip` finds exactly the end of that octet's text.
proof fn lemma_dot_search_on_text(ip: Ipv4Addr, k: int, e: int)
    requires
        0 <= k < 4,
        octet_start(ip, k) <= e <= ipv4_text(ip).len(),
        forall|i: int| octet_start(ip, k) <= i < e ==> ipv4_text(ip)[i] != '.',
        e < ipv4_text(ip).len() ==> ipv4_text(ip)[e] == '.',
    ensures
        e == octet_end(ip, k),
        ipv4_text(ip).subrange(octet_start(ip, k), e) == decimal(octet_at(ip, k) as nat),
        k < 3 ==> e < ipv4_text(ip).len(),
        k == 3 ==> e == ipv4_text(ip).len(),
{
    lemma_ipv4_text_shape(ip);
    let t = ipv4_text(ip);
    let q = octet_end(ip, k);
    assert(octet_end(ip, 0) == decimal(ip.a as nat).len());
    assert(octet_end(ip, 1) == octet_end(ip, 0) + 1 + decimal(ip.b as nat).len());
    assert(octet_end(ip, 2) == octet_end(ip, 1) + 1 + decimal(ip.c as nat).len());
    assert(octet_end(ip, 3) == octet_end(ip, 2) + 1 + decimal(ip.d as nat).len());
    if e < q {
        assert(is_digit(t[e]));
    }
    if e > q {
        assert(t[q] != '.');
    }
}

/// When the octet search on `cs` fails at octet `k` (a missing or extra dot,
/// or a text that is no octet), `cs` is the text of no address.
proof fn lemma_rejected(cs: Seq<char>, k: int, e0: int, e1: int, e2: int, e3: int)
    requires
        0 <= k < 4,
        next_dot(cs, 0, e0),
        k >= 1 ==> e0 < cs.len() && next_dot(cs, e0 + 1, e1),
        k >= 2 ==> e1 < cs.len() && next_dot(cs, e1 + 1, e2),
        k >= 3 ==> e2 < cs.len() && next_dot(cs, e2 + 1, e3),
        ({
            let start = if k == 0 { 0 } else if k == 1 { e0 + 1 } else if k == 2 { e1 + 1 } else { e2 + 1 };
            let end = if k == 0 { e0 } else if k == 1 { e1 } else if k == 2 { e2 } else { e3 };
            ||| (k < 3 && end == cs.len())
            ||| (k == 3 && end != cs.len())
            ||| forall|n: u8| cs.subrange(start, end) != decimal(n as nat)
        }),
    ensures
        forall|ip: Ipv4Addr| cs != ipv4_text(ip),
{
    assert forall|ip: Ipv4Addr| cs != ipv4_text(ip) by {
        if cs == ipv4_text(ip) {
            lemma_dot_search_on_text(ip, 0, e0);
            if k >= 1 {
                lemma_dot_search_on_text(ip, 1, e1);
            }
            if k >= 2 {
                lemma_dot_search_on_text(ip, 2, e2);
            }
            if k >= 3 {
                lemma_dot_search_on_text(ip, 3, e3);
            }
        }
    }
}

/// Distinct byte values have distinct decimal texts.
pub proof fn lemma_decimal_injective(m: nat, n: nat)
    requires
        m < 256,
        n < 256,
        decimal(m) == decimal(n),
    ensures
        m == n,
{
    lemma_decimal_byte(m);
    lemma_decimal_byte(n);
    assert(decimal(m).len() == decimal(n).len());
    if m < 10 {
        assert(n < 10);
        assert(decimal(m) == seq![digit_char(m)]);
        assert(decimal(n) == seq![digit_char(n)]);
        assert(seq![digit_char(m)][0] == digit_char(m));
        assert(seq![digit_char(n)][0] == digit_char(n));
        assert(decimal(m)[0] == decimal(n)[0]);
        lemma_digit_char_injective(m, n);
    } else if m < 100 {
        assert(10 <= n < 100);
        assert(decimal(m)[0] == decimal(n)[0]);
        assert(decimal(m)[1] == decimal(n)[1]);
        lemma_digit_char_injective(m / 10, n / 10);
        lemma_digit_char_injective(m % 10, n % 10);
        assert(m == (m / 10) * 10 + m % 10);
        assert(n == (n / 10) * 10 + n % 10);
    } else {
        assert(100 <= n);
        assert(decimal(m)[0] == decimal(n)[0]);
        assert(decimal(m)[1] == decimal(n)[1]);
        assert(decimal(m)[2] == decimal(n)[2]);
        lemma_digit_char_injective(m / 100, n / 100);
        lemma_digit_char_injective((m / 10) % 10, (n / 10) % 10);
        lemma_digit_char_injective(m % 10, n % 10);
        assert(m == (m / 100) * 100 + ((m / 10) % 10) * 10 + m % 10);
        assert(n == (n / 100) * 100 + ((n / 10) % 10) * 10 + n % 10);
    }
}

/// Distinct digits have distinct characters.
proof fn lemma_digit_char_injective(a: nat, b: nat)
    requires
        a < 10,
        b < 10,
        digit_char(a) == digit_char(b),
    ensures
        a == b,
{
    assert(digit_char(a) as int == 48 + a);
    assert(digit_char(b) as int == 48 + b);
}

/// In the text of `x`, the octet search from the start of octet `k` ends
/// where the text of octet `k` ends.
proof fn lemma_octet_end_is_next_dot(x: Ipv4Addr, k: int)
    requires
        0 <= k < 4,
    ensures
        octet_start(x, k) <= octet_end(x, k) <= ipv4_text(x).len(),
        forall|i: int| octet_start(x, k) <= i < octet_end(x, k) ==> ipv4_text(x)[i] != '.',
        octet_end(x, k) < ipv4_text(x).len() ==> ipv4_text(x)[octet_end(x, k)] == '.',
        k < 3 ==> octet_end(x, k) < ipv4_text(x).len(),
{
    lemma_ipv4_text_shape(x);
    lemma_decimal_byte(x.a as nat);
    lemma_decimal_byte(x.b as nat);
    lemma_decimal_byte(x.c as nat);
    lemma_decimal_byte(x.d as nat);
    assert(octet_end(x, 0) == decimal(x.a as nat).len());
    assert(octet_end(x, 1) == octet_end(x, 0) + 1 + decimal(x.b as nat).len());
    assert(octet_end(x, 2) == octet_end(x, 1) + 1 + decimal(x.c as nat).len());
    assert(octet_end(x, 3) == octet_end(x, 2) + 1 + decimal(x.d as nat).len());
    assert forall|i: int| octet_start(x, k) <= i < octet_end(x, k) implies ipv4_text(x)[i] != '.' by {
        assert(is_digit(ipv4_text(x)[i]));
    }
}

/// Two addresses with the same text are the same address.
pub proof fn lemma_ipv4_text_injective(x: Ipv4Addr, y: Ipv4Addr)
    requires
        ipv4_text(x) == ipv4_text(y),
    ensures
        x == y,
{
    lemma_octet_end_is_next_dot(x, 0);
    assert(octet_start(x, 0) == octet_start(y, 0));
    lemma_dot_search_on_text(y, 0, octet_end(x, 0));
    lemma_dot_search_on_text(x, 0, octet_end(x, 0));
    lemma_decimal_injective(octet_at(x, 0) as nat, octet_at(y, 0) as nat);
    lemma_octet_end_is_next_dot(x, 1);
    assert(octet_start(x, 1) == octet_start(y, 1));
    lemma_dot_search_on_text(y, 1, octet_end(x, 1));
    lemma_dot_search_on_text(x, 1, octet_end(x, 1));
    lemma_decimal_injective(octet_at(x, 1) as nat, octet_at(y, 1) as nat);
    lemma_octet_end_is_next_dot(x, 2);
    assert(octet_start(x, 2) == octet_start(y, 2));
    lemma_dot_search_on_text(y, 2, octet_end(x, 2));
    lemma_dot_search_on_text(x, 2, octet_end(x, 2));
    lemma_decimal_injective(octet_at(x, 2) as nat, octet_at(y, 2) as nat);
    lemma_octet_end_is_next_dot(x, 3);
    assert(octet_start(x, 3) == octet_start(y, 3));
    lemma_dot_search_on_text(y, 3, octet_end(x, 3));
    lemma_dot_search_on_text(x, 3, octet_end(x, 3));
    lemma_decimal_injective(octet_at(x, 3) as nat, octet_at(y, 3) as nat);
    assert(octet_at(x, 0) == octet_at(y, 0));
    assert(octet_at(x, 1) == octet_at(y, 1));
    assert(octet_at(x, 2) == octet_at(y, 2));
    assert(octet_at(x, 3) == octet_at(y, 3));
}

/// Parses an IPv4 address in dotted-decimal form, as `str::parse` does:
/// exactly four octets, each the canonical decimal text of a byte value
/// (so no leading zeros, signs or spaces), separated by single dots.
#[verifier::rlimit(40)]
pub fn parse_ipv4(s: &str) -> (r: Option<Ipv4Addr>)
    ensures
        match r {
            Some(ip) => s@ == ipv4_text(ip),
            None => forall|ip: Ipv4Addr| s@ != ipv4_text(ip),
        },
        forall|ip: Ipv4Addr| #[trigger] ipv4_text(ip) == s@ <==> r == Some(ip),
{
    let n = s.unicode_len();
    if n > 15 {
        proof {
            assert forall|ip: Ipv4Addr| s@ != ipv4_text(ip) by {
                lemma_ipv4_text_shape(ip);
            }
        }
        return None;
    }
    let mut cs: Vec<char> = Vec::new();
    let mut i: usize = 0;
    while i < n
        invariant
            n == s@.len(),
            i <= n,
            cs@ == s@.subrange(0, i as int),
        decreases n - i,
    {
        cs.push(s.get_char(i));
        i = i + 1;
        proof {
            assert(cs@ =~= s@.subrange(0, i as int));
        }
    }
    assert(cs@ =~= s@);
    let e0 = find_dot(&cs, 0);
    let r0 = parse_octet(&cs, 0, e0);
    if e0 == n || r0.is_none() {
        proof {
            lemma_rejected(cs@, 0, e0 as int, 0, 0, 0);
        }
        return None;
    }
    let e1 = find_dot(&cs, e0 + 1);
    let r1 = parse_octet(&cs, e0 + 1, e1);
    if e1 == n || r1.is_none() {
        proof {
            lemma_rejected(cs@, 1, e0 as int, e1 as int, 0, 0);
        }
        return None;
    }
    let e2 = find_dot(&cs, e1 + 1);
    let r2 = parse_octet(&cs, e1 + 1, e2);
    if e2 == n || r2.is_none() {
        proof {
            lemma_rejected(cs@, 2, e0 as int, e1 as int, e2 as int, 0);
        }
        return None;
    }
    let e3 = find_dot(&cs, e2 + 1);
    let r3 = parse_octet(&cs, e2 + 1, e3);
    if e3 != n || r3.is_none() {
        proof {
            lemma_rejected(cs@, 3, e0 as int, e1 as int, e2 as int, e3 as int);
        }
        return None;
    }
    let ip = Ipv4Addr { a: r0.unwrap(), b: r1.unwrap(), c: r2.unwrap(), d: r3.unwrap() };
    proof {
        assert(cs@ =~= cs@.subrange(0, e0 as int) + seq!['.'] + cs@.subrange(e0 + 1, e1 as int)
            + seq!['.'] + cs@.subrange(e1 + 1, e2 as int) + seq!['.'] + cs@.subrange(
            e2 + 1,
            e3 as int,
        ));
        assert forall|ip2: Ipv4Addr| #[trigger] ipv4_text(ip2) == s@ implies ip2 == ip by {
            lemma_ipv4_text_injective(ip2, ip);
        }
    }
    Some(ip)
}

} // verus!
