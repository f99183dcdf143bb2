//! IPv4 addresses and prefixes.
use crate::number;
use crate::number::{decimal_digit, numeral_chars};
use crate::text;
use crate::text::{split_on, string_of};
use vstd::arithmetic::div_mod::*;
use vstd::arithmetic::power2::*;
use vstd::prelude::*;

verus! {

/// An IPv4 address, as the number that its four octets form, first octet
/// most significant.
#[derive(Debug, Clone, Copy, PartialEq, Eq, Hash, Structural)]
pub struct Ipv4Addr {
    pub bits: u32,
}

/// The number formed by four octets.
pub open spec fn bits_of(a: u8, b: u8, c: u8, d: u8) -> int {
    a * 0x100_0000 + b * 0x1_0000 + c * 0x100 + d
}

/// An octet of an address, counted from the most significant one.
pub open spec fn octet(bits: u32, i: int) -> u8 {
    if i == 0 {
        (bits as int / 0x100_0000) as u8
    } else if i == 1 {
        (bits as int / 0x1_0000 % 0x100) as u8
    } else if i == 2 {
        (bits as int / 0x100 % 0x100) as u8
    } else {
        (bits as int % 0x100) as u8
    }
}

/// The dotted text of an address.
pub open spec fn dotted(bits: u32) -> Seq<char> {
    number::decimal(octet(bits, 0) as nat) + seq!['.'] + number::decimal(octet(bits, 1) as nat) + seq!['.']
        + number::decimal(octet(bits, 2) as nat) + seq!['.'] + number::decimal(octet(bits, 3) as nat)
}

impl Ipv4Addr {
    /// The address of four octets.
    pub fn new(a: u8, b: u8, c: u8, d: u8) -> (r: Ipv4Addr)
        ensures
            r.bits == bits_of(a, b, c, d),
    {
        Ipv4Addr {
            bits: a as u32 * 0x100_0000 + b as u32 * 0x1_0000 + c as u32 * 0x100 + d as u32,
        }
    }

    /// The address `0.0.0.0`.
    pub fn unspecified() -> (r: Ipv4Addr)
        ensures
            r.bits == 0,
    {
        Ipv4Addr { bits: 0 }
    }

    /// The four octets, most significant first.
    pub fn octets(self) -> (r: [u8; 4])
        ensures
            forall|i: int| 0 <= i < 4 ==> #[trigger] r@[i] == octet(self.bits, i),
            self.bits == bits_of(r@[0], r@[1], r@[2], r@[3]),
    {
        let a: u8 = (self.bits / 0x100_0000) as u8;
        let b: u8 = (self.bits / 0x1_0000 % 0x100) as u8;
        let c: u8 = (self.bits / 0x100 % 0x100) as u8;
        let d: u8 = (self.bits % 0x100) as u8;
        [a, b, c, d]
    }

    /// Whether the address is `0.0.0.0`.
    pub fn is_unspecified(self) -> (r: bool)
        ensures
            r == (self.bits == 0),
    {
        self.bits == 0
    }

    /// Whether the address is in `127.0.0.0/8`.
    pub fn is_loopback(self) -> (r: bool)
        ensures
            r == (octet(self.bits, 0) == 127),
    {
        self.bits / 0x100_0000 == 127
    }

    /// The dotted text of the address.
    pub fn to_text(self) -> (r: String)
        ensures
            r@ == dotted(self.bits),
    {
        let o = self.octets();
        let mut cs = numeral_chars(o[0] as u64, 10, 0);
        cs.push('.');
        let mut b = numeral_chars(o[1] as u64, 10, 0);
        cs.append(&mut b);
        cs.push('.');
        let mut c = numeral_chars(o[2] as u64, 10, 0);
        cs.append(&mut c);
        cs.push('.');
        let mut d = numeral_chars(o[3] as u64, 10, 0);
        cs.append(&mut d);
        assert(cs@ =~= dotted(self.bits));
        string_of(cs.as_slice())
    }
}

/// The octet that a text denotes: one to three digits, no leading zero, at
/// most 255.
pub open spec fn parse_octet(s: Seq<char>) -> Option<int> {
    if 1 <= s.len() <= 3 && number::all_digits(s) && (s.len() > 1 ==> s[0] != '0') && number::digits_value(s)
        <= 255 {
        Some(number::digits_value(s))
    } else {
        None
    }
}

/// The address that a text denotes: four octets separated by full stops.
pub open spec fn parse_ipv4(s: Seq<char>) -> Option<int> {
    let p = text::split(s, '.');
    if p.len() == 4 && parse_octet(p[0]) is Some && parse_octet(p[1]) is Some && parse_octet(
        p[2],
    ) is Some && parse_octet(p[3]) is Some {
        Some(
            parse_octet(p[0])->0 * 0x100_0000 + parse_octet(p[1])->0 * 0x1_0000 + parse_octet(
                p[2],
            )->0 * 0x100 + parse_octet(p[3])->0,
        )
    } else {
        None
    }
}

/// Parses one octet.
pub fn octet_of(s: &[char]) -> (r: Option<u8>)
    ensures
        match r {
            Some(n) => parse_octet(s@) == Some(n as int),
            None => parse_octet(s@) is None,
        },
{
    if s.len() == 0 || s.len() > 3 || (s.len() > 1 && s[0] == '0') {
        return None;
    }
    let mut value: u32 = 0;
    let ghost mut bound: int = 1;
    assert(s@.take(0) =~= Seq::<char>::empty());
    for i in 0..s.len()
        invariant
            1 <= s.len() <= 3,
            number::all_digits(s@.take(i as int)),
            value == number::digits_value(s@.take(i as int)),
            i == 0 ==> value < 1,
            i == 1 ==> value < 10,
            i == 2 ==> value < 100,
            i == 3 ==> value < 1000,
    {
        let c = s[i];
        if !decimal_digit(c) {
            assert(!number::all_digits(s@));
            return None;
        }
        let ghost t = s@.take(i + 1);
        assert(t.drop_last() =~= s@.take(i as int));
        assert(t.last() == c);
        assert forall|k: int| 0 <= k < t.len() implies number::is_digit(#[trigger] t[k]) by {
            if k < i {
                assert(t[k] == s@.take(i as int)[k]);
            }
        }
        value = value * 10 + (c as u32 - '0' as u32);
        assert(number::digit_value(c) == c as u32 - '0' as u32);
    }
    assert(s@.take(s.len() as int) =~= s@);
    if value > 255 {
        None
    } else {
        Some(value as u8)
    }
}

/// Parses a dotted address.
pub fn parse_address(s: &[char]) -> (r: Option<Ipv4Addr>)
    ensures
        match r {
            Some(ip) => parse_ipv4(s@) == Some(ip.bits as int),
            None => parse_ipv4(s@) is None,
        },
{
    let parts = split_on(s, '.');
    let ghost p = text::split(s@, '.');
    assert(text::texts(parts@).len() == p.len());
    if parts.len() != 4 {
        return None;
    }
    assert(forall|i: int| 0 <= i < 4 ==> p[i] == #[trigger] parts@[i]@);
    let a = octet_of(parts[0].as_slice());
    let b = octet_of(parts[1].as_slice());
    let c = octet_of(parts[2].as_slice());
    let d = octet_of(parts[3].as_slice());
    match (a, b, c, d) {
        (Some(a), Some(b), Some(c), Some(d)) => Some(Ipv4Addr::new(a, b, c, d)),
        _ => None,
    }
}

proof fn lemma_octet_text(n: nat)
    requires
        n <= 255,
    ensures
        parse_octet(number::decimal(n)) == Some(n as int),
        forall|k: int| 0 <= k < number::decimal(n).len() ==> number::decimal(n)[k] != '.',
{
    number::lemma_decimal(n);
    reveal_with_fuel(crate::number::numeral, 4);
    assert(number::decimal(n).len() <= 3);
    assert forall|k: int| 0 <= k < number::decimal(n).len() implies number::decimal(n)[k] != '.' by {
        assert(number::is_digit(number::decimal(n)[k]));
    }
}

proof fn lemma_split_step(head: Seq<char>, tail: Seq<char>, c: char)
    requires
        forall|k: int| 0 <= k < head.len() ==> head[k] != c,
    ensures
        text::split(head + seq![c] + tail, c) == seq![head] + text::split(tail, c),
{
    let s = head + seq![c] + tail;
    assert forall|k: int| 0 <= k < head.len() implies s[k] != c by {
        assert(s[k] == head[k]);
    }
    text::lemma_first_index_unique(s, c, head.len() as int);
    assert(s.take(head.len() as int) =~= head);
    assert(s.skip(head.len() as int + 1) =~= tail);
}

proof fn lemma_split_four(a: Seq<char>, b: Seq<char>, c: Seq<char>, d: Seq<char>)
    requires
        forall|k: int| 0 <= k < a.len() ==> a[k] != '.',
        forall|k: int| 0 <= k < b.len() ==> b[k] != '.',
        forall|k: int| 0 <= k < c.len() ==> c[k] != '.',
        forall|k: int| 0 <= k < d.len() ==> d[k] != '.',
    ensures
        text::split(a + seq!['.'] + b + seq!['.'] + c + seq!['.'] + d, '.') == seq![a, b, c, d],
{
    let t2 = c + seq!['.'] + d;
    let t1 = b + seq!['.'] + t2;
    let t0 = a + seq!['.'] + t1;
    assert(t0 =~= a + seq!['.'] + b + seq!['.'] + c + seq!['.'] + d);
    lemma_split_step(a, t1, '.');
    lemma_split_step(b, t2, '.');
    lemma_split_step(c, d, '.');
    text::lemma_first_index_unique(d, '.', d.len() as int);
    assert(text::split(d, '.') == seq![d]);
    assert(text::split(t0, '.') =~= seq![a, b, c, d]);
}

/// Parsing undoes writing: the dotted text of an address denotes the address.
pub proof fn parse_of_dotted(bits: u32)
    ensures
        parse_ipv4(dotted(bits)) == Some(bits as int),
{
    let a = octet(bits, 0);
    let b = octet(bits, 1);
    let c = octet(bits, 2);
    let d = octet(bits, 3);
    lemma_octet_text(a as nat);
    lemma_octet_text(b as nat);
    lemma_octet_text(c as nat);
    lemma_octet_text(d as nat);
    lemma_split_four(
        number::decimal(a as nat),
        number::decimal(b as nat),
        number::decimal(c as nat),
        number::decimal(d as nat),
    );
    let p = text::split(dotted(bits), '.');
    assert(p[0] == number::decimal(a as nat));
    assert(p[1] == number::decimal(b as nat));
    assert(p[2] == number::decimal(c as nat));
    assert(p[3] == number::decimal(d as nat));
    assert(bits == bits_of(a, b, c, d));
}

// ---------------------------------------------------------------------------
// Prefixes
// ---------------------------------------------------------------------------

/// The number of addresses under a prefix.
pub open spec fn span(prefix: int) -> int {
    pow2((32 - prefix) as nat) as int
}

/// The first address of the block of `bits` under a prefix.
pub open spec fn network_of(bits: int, prefix: int) -> int {
    bits - bits % span(prefix)
}

/// The last address of the block of `bits` under a prefix.
pub open spec fn broadcast_of(bits: int, prefix: int) -> int {
    network_of(bits, prefix) + span(prefix) - 1
}

/// Whether an address lies in the block of `network` under a prefix.
pub open spec fn covers(network: int, prefix: int, bits: int) -> bool {
    network_of(bits, prefix) == network
}

/// A block has between one address and all of them.
pub proof fn lemma_span(prefix: int)
    requires
        0 <= prefix <= 32,
    ensures
        1 <= span(prefix) <= 0x1_0000_0000,
        prefix == 0 ==> span(prefix) == 0x1_0000_0000,
        prefix == 31 ==> span(prefix) == 2,
        prefix == 32 ==> span(prefix) == 1,
        prefix <= 30 ==> span(prefix) >= 4,
{
    lemma2_to64();
    lemma_pow2_pos((32 - prefix) as nat);
    if prefix > 0 {
        lemma_pow2_strictly_increases((32 - prefix) as nat, 32);
    }
    if prefix < 30 {
        lemma_pow2_strictly_increases(2, (32 - prefix) as nat);
    }
}

/// The block of an address holds it, starts at a multiple of the block size,
/// ends below `2^32`, and every address of the block has the same block.
pub proof fn network_is_a_block(bits: int, prefix: int)
    requires
        0 <= bits < 0x1_0000_0000,
        0 <= prefix <= 32,
    ensures
        0 <= network_of(bits, prefix) <= bits <= broadcast_of(bits, prefix) < 0x1_0000_0000,
        network_of(network_of(bits, prefix), prefix) == network_of(bits, prefix),
        forall|other: int|
            network_of(bits, prefix) <= other <= broadcast_of(bits, prefix) ==> #[trigger] network_of(
                other,
                prefix,
            ) == network_of(bits, prefix),
{
    lemma_span(prefix);
    let s = span(prefix);
    let n = network_of(bits, prefix);
    let q = bits / s;
    lemma_fundamental_div_mod(bits, s);
    lemma_mod_bound(bits, s);
    assert(n == s * q);
    assert(q >= 0) by (nonlinear_arith)
        requires
            q == bits / s,
            bits >= 0,
            s >= 1,
    ;
    assert(n >= 0) by (nonlinear_arith)
        requires
            n == s * q,
            s >= 1,
            q >= 0,
    ;
    assert forall|other: int| n <= other <= n + s - 1 implies #[trigger] network_of(other, prefix)
        == n by {
        lemma_fundamental_div_mod_converse(other, s, q, other - n);
    }
    // The block size divides 2^32, so the block does not pass it.
    let m = pow2(prefix as nat) as int;
    lemma_pow2_adds((32 - prefix) as nat, prefix as nat);
    lemma2_to64();
    assert(s * m == 0x1_0000_0000);
    assert(q < m) by (nonlinear_arith)
        requires
            s * q <= bits,
            bits < s * m,
            s >= 1,
    ;
    assert(s * q + s <= s * m) by (nonlinear_arith)
        requires
            q < m,
            s >= 1,
    ;
}

/// The number of addresses under a prefix.
pub fn block_size(prefix: u8) -> (r: u64)
    requires
        prefix <= 32,
    ensures
        r == span(prefix as int),
        1 <= r <= 0x1_0000_0000,
{
    let mut r: u64 = 1;
    let mut left: u8 = 32 - prefix;
    let ghost total = (32 - prefix) as nat;
    proof {
        lemma2_to64();
        lemma_span(prefix as int);
    }
    while left > 0
        invariant
            left <= total <= 32,
            r == pow2((total - left) as nat),
            pow2(total) <= 0x1_0000_0000,
        decreases left,
    {
        proof {
            lemma_pow2_unfold((total - left + 1) as nat);
            if left > 1 {
                lemma_pow2_strictly_increases((total - left + 1) as nat, total);
            }
        }
        r = r * 2;
        left = left - 1;
    }
    r
}

/// The first address of the block of an address.
pub fn network_address(ip: Ipv4Addr, prefix: u8) -> (r: Ipv4Addr)
    requires
        prefix <= 32,
    ensures
        r.bits == network_of(ip.bits as int, prefix as int),
{
    let size = block_size(prefix);
    let bits = ip.bits as u64;
    proof {
        network_is_a_block(ip.bits as int, prefix as int);
    }
    assert(bits % size <= bits) by (nonlinear_arith)
        requires
            size >= 1,
    ;
    Ipv4Addr { bits: (bits - bits % size) as u32 }
}

// ---------------------------------------------------------------------------
// Laws
// ---------------------------------------------------------------------------

proof fn lemma_octet_is_decimal(s: Seq<char>)
    requires
        parse_octet(s) is Some,
    ensures
        0 <= parse_octet(s)->0 <= 255,
        s == number::decimal(parse_octet(s)->0 as nat),
{
    reveal_with_fuel(crate::number::numeral, 4);
    reveal_with_fuel(crate::number::digits_value, 4);
    let v = number::digits_value(s);
    assert(number::is_digit(s[0]));
    let empty = s.take(0);
    if s.len() == 1 {
        assert(s.drop_last() =~= Seq::<char>::empty());
        assert(number::decimal(v as nat) =~= s);
    } else if s.len() == 2 {
        assert(number::is_digit(s[1]));
        let t = s.drop_last();
        assert(t.drop_last() =~= Seq::<char>::empty());
        assert(v == 10 * number::digit_value(s[0]) + number::digit_value(s[1]));
        assert(number::decimal(v as nat) =~= s);
    } else {
        assert(number::is_digit(s[1]));
        assert(number::is_digit(s[2]));
        let t = s.drop_last();
        let u = t.drop_last();
        assert(u.drop_last() =~= Seq::<char>::empty());
        assert(v == 100 * number::digit_value(s[0]) + 10 * number::digit_value(s[1])
            + number::digit_value(s[2]));
        assert(v / 10 == 10 * number::digit_value(s[0]) + number::digit_value(s[1]));
        assert(number::decimal(v as nat) =~= s);
    }
}

/// Only the dotted text of an address denotes it: what is read as an address
/// is written the same way again.
pub proof fn only_the_dotted_text_denotes_an_address(s: Seq<char>)
    requires
        parse_ipv4(s) is Some,
    ensures
        0 <= parse_ipv4(s)->0 <= 0xffff_ffff,
        s == dotted(parse_ipv4(s)->0 as u32),
{
    let p = text::split(s, '.');
    lemma_octet_is_decimal(p[0]);
    lemma_octet_is_decimal(p[1]);
    lemma_octet_is_decimal(p[2]);
    lemma_octet_is_decimal(p[3]);
    text::splitting_loses_nothing(s, '.');
    let bits = parse_ipv4(s)->0 as u32;
    octets_make_the_address(
        parse_octet(p[0])->0 as u8,
        parse_octet(p[1])->0 as u8,
        parse_octet(p[2])->0 as u8,
        parse_octet(p[3])->0 as u8,
    );
    lemma_join_four(p);
    assert(octet(bits, 0) as nat == parse_octet(p[0])->0);
    assert(octet(bits, 1) as nat == parse_octet(p[1])->0);
    assert(octet(bits, 2) as nat == parse_octet(p[2])->0);
    assert(octet(bits, 3) as nat == parse_octet(p[3])->0);
}

proof fn lemma_join_four(p: Seq<Seq<char>>)
    requires
        p.len() == 4,
    ensures
        text::joined_by(p, '.') == p[0] + seq!['.'] + p[1] + seq!['.'] + p[2] + seq!['.'] + p[3],
{
    let p1 = p.drop_first();
    let p2 = p1.drop_first();
    let p3 = p2.drop_first();
    assert(p1[0] == p[1] && p2[0] == p[2] && p3[0] == p[3]);
    assert(text::joined_by(p3, '.') == p[3]);
    assert(text::joined_by(p2, '.') == p[2] + seq!['.'] + p[3]);
    assert(text::joined_by(p1, '.') == p[1] + seq!['.'] + (p[2] + seq!['.'] + p[3]));
    assert(text::joined_by(p, '.') =~= p[0] + seq!['.'] + p[1] + seq!['.'] + p[2] + seq!['.']
        + p[3]);
}

/// The dotted text of an address holds nothing but digits and full stops, and
/// begins and ends with a digit.
pub proof fn a_dotted_text_is_plain(bits: u32, i: int)
    requires
        0 <= i < dotted(bits).len(),
    ensures
        number::is_digit(dotted(bits)[i]) || dotted(bits)[i] == '.',
        number::is_digit(dotted(bits)[0]),
        number::is_digit(dotted(bits).last()),
        dotted(bits).len() >= 7,
{
    let a = number::decimal(octet(bits, 0) as nat);
    let b = number::decimal(octet(bits, 1) as nat);
    let c = number::decimal(octet(bits, 2) as nat);
    let d = number::decimal(octet(bits, 3) as nat);
    number::lemma_decimal(octet(bits, 0) as nat);
    number::lemma_decimal(octet(bits, 1) as nat);
    number::lemma_decimal(octet(bits, 2) as nat);
    number::lemma_decimal(octet(bits, 3) as nat);
    let s = dotted(bits);
    let nb = a.len() + 1;
    let nc = nb + b.len() + 1;
    let nd = nc + c.len() + 1;
    assert(s.len() == nd + d.len());
    assert(s[0] == a[0]);
    assert(s.last() == d[d.len() - 1]);
    if i < a.len() {
        assert(s[i] == a[i]);
    } else if nb <= i < nb + b.len() {
        assert(s[i] == b[i - nb]);
    } else if nc <= i < nc + c.len() {
        assert(s[i] == c[i - nc]);
    } else if nd <= i {
        assert(s[i] == d[i - nd]);
    }
}

/// The first address of the block of an address has no bit behind the prefix,
/// and the address lies less than the size of the block behind it.
pub proof fn a_network_has_no_bits_behind_its_prefix(bits: int, prefix: int)
    requires
        0 <= bits < 0x1_0000_0000,
        0 <= prefix <= 32,
    ensures
        network_of(bits, prefix) % (pow2((32 - prefix) as nat) as int) == 0,
        network_of(bits, prefix) <= bits < network_of(bits, prefix) + pow2((32 - prefix) as nat),
        forall|other: int|
            0 <= other < 0x1_0000_0000 ==> (#[trigger] covers(
                network_of(bits, prefix),
                prefix,
                other,
            ) <==> network_of(bits, prefix) <= other < network_of(bits, prefix) + pow2(
                (32 - prefix) as nat,
            )),
{
    network_is_a_block(bits, prefix);
    lemma_span(prefix);
    let s = pow2((32 - prefix) as nat) as int;
    let n = network_of(bits, prefix);
    assert(n == network_of(n, prefix));
    assert(n % s == 0) by {
        lemma_mod_bound(n, s);
    }
    assert forall|other: int| 0 <= other < 0x1_0000_0000 implies (#[trigger] covers(
        n,
        prefix,
        other,
    ) <==> n <= other < n + s) by {
        network_is_a_block(other, prefix);
    }
}

/// Writing four octets and taking them apart again are inverse.
pub proof fn octets_make_the_address(a: u8, b: u8, c: u8, d: u8)
    ensures
        ({
            let bits = bits_of(a, b, c, d) as u32;
            &&& octet(bits, 0) == a
            &&& octet(bits, 1) == b
            &&& octet(bits, 2) == c
            &&& octet(bits, 3) == d
        }),
{
}

} // verus!
