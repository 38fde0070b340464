//! IPv4 socket endpoints in their canonical `a.b.c.d:port` text form.
//!
//! A backend's identity is its endpoint. The registry orders backends by
//! endpoint and hashes the canonical text, so parsing and formatting are
//! pinned down exactly: `parse_endpoint` accepts precisely the strings that
//! `endpoint_to_bytes` produces.

use vstd::prelude::*;

verus! {

/// One upstream socket endpoint: an IPv4 address and a port.
#[derive(Clone, Copy, PartialEq, Eq, Structural, Debug, Hash)]
pub struct Endpoint {
    pub ip: u32,
    pub port: u16,
}

impl Endpoint {
    /// Total order on endpoints: by address, then by port.
    pub open spec fn order_key(self) -> int {
        self.ip * 0x10000 + self.port
    }

    /// First octet of the address.
    pub open spec fn oct0(self) -> int {
        self.ip as int / 0x1000000
    }

    /// Second octet of the address.
    pub open spec fn oct1(self) -> int {
        (self.ip as int / 0x10000) % 256
    }

    /// Third octet of the address.
    pub open spec fn oct2(self) -> int {
        (self.ip as int / 0x100) % 256
    }

    /// Fourth octet of the address.
    pub open spec fn oct3(self) -> int {
        self.ip as int % 256
    }
}

/// ASCII decimal digit.
pub open spec fn is_digit(b: u8) -> bool {
    0x30 <= b <= 0x39
}

/// The shortest decimal digit string of a non-negative number.
pub open spec fn dec_bytes(n: int) -> Seq<u8>
    decreases n,
{
    if n <= 9 {
        seq![(0x30 + if n >= 0 { n } else { 0 }) as u8]
    } else {
        dec_bytes(n / 10) + seq![(0x30 + n % 10) as u8]
    }
}

/// The number a digit string stands for.
pub open spec fn digits_val(ds: Seq<u8>) -> int
    decreases ds.len(),
{
    if ds.len() == 0 {
        0
    } else {
        digits_val(ds.drop_last()) * 10 + (ds.last() - 0x30)
    }
}

/// Ten to the `k`.
pub open spec fn pow10(k: nat) -> int
    decreases k,
{
    if k == 0 {
        1
    } else {
        10 * pow10((k - 1) as nat)
    }
}

/// The canonical text of an endpoint, as bytes: `a.b.c.d:port` with no
/// leading zeros.
pub open spec fn endpoint_bytes(e: Endpoint) -> Seq<u8> {
    dec_bytes(e.oct0()) + seq![0x2eu8] + dec_bytes(e.oct1()) + seq![0x2eu8] + dec_bytes(e.oct2())
        + seq![0x2eu8] + dec_bytes(e.oct3()) + seq![0x3au8] + dec_bytes(e.port as int)
}

/// The digit string of `n` consists of digits, is non-empty, and stands for
/// `n` again.
pub proof fn lemma_dec_bytes(n: int)
    requires
        n >= 0,
    ensures
        dec_bytes(n).len() >= 1,
        forall|i: int| 0 <= i < dec_bytes(n).len() ==> is_digit(#[trigger] dec_bytes(n)[i]),
        digits_val(dec_bytes(n)) == n,
    decreases n,
{
    if n <= 9 {
        assert(digits_val(dec_bytes(n)) == digits_val(dec_bytes(n).drop_last()) * 10 + n);
        assert(dec_bytes(n).drop_last() =~= Seq::<u8>::empty());
    } else {
        lemma_dec_bytes(n / 10);
        assert(dec_bytes(n).drop_last() =~= dec_bytes(n / 10));
        assert(dec_bytes(n).last() == (0x30 + n % 10) as u8);
    }
}

/// A digit string of length `k` stands for a number below ten to the `k`.
pub proof fn lemma_digits_val_bound(ds: Seq<u8>)
    requires
        forall|i: int| 0 <= i < ds.len() ==> is_digit(#[trigger] ds[i]),
    ensures
        0 <= digits_val(ds) < pow10(ds.len()),
    decreases ds.len(),
{
    if ds.len() > 0 {
        lemma_digits_val_bound(ds.drop_last());
    }
}

/// Ten to any power is positive.
pub proof fn lemma_pow10_pos(k: nat)
    ensures
        pow10(k) >= 1,
    decreases k,
{
    if k > 0 {
        lemma_pow10_pos((k - 1) as nat);
    }
}

/// Ten to the power is monotone.
pub proof fn lemma_pow10_mono(a: nat, b: nat)
    requires
        a <= b,
    ensures
        1 <= pow10(a) <= pow10(b),
    decreases b,
{
    lemma_pow10_pos(a);
    if a < b {
        lemma_pow10_mono(a, (b - 1) as nat);
    }
}

/// A number below ten to the `k` has at most `k` digits.
pub proof fn lemma_dec_bytes_len(n: int, k: nat)
    requires
        0 <= n < pow10(k),
        k >= 1,
    ensures
        dec_bytes(n).len() <= k,
    decreases k,
{
    if n > 9 {
        assert(pow10(k) == 10 * pow10((k - 1) as nat));
        lemma_dec_bytes_len(n / 10, (k - 1) as nat);
    }
}

/// Appends the decimal digits of `n` to `out`.
fn push_dec(out: &mut Vec<u8>, n: u32)
    ensures
        final(out)@ == old(out)@ + dec_bytes(n as int),
    decreases n,
{
    if n <= 9 {
        out.push(0x30 + (n as u8));
        assert(out@ =~= old(out)@ + dec_bytes(n as int));
    } else {
        push_dec(out, n / 10);
        out.push(0x30 + ((n % 10) as u8));
        assert(out@ =~= old(out)@ + dec_bytes(n as int));
    }
}

/// Formats an endpoint as its canonical `a.b.c.d:port` bytes.
pub fn endpoint_to_bytes(e: &Endpoint) -> (v: Vec<u8>)
    ensures
        v@ == endpoint_bytes(*e),
{
    let mut v: Vec<u8> = Vec::new();
    push_dec(&mut v, e.ip / 0x1000000);
    v.push(0x2e);
    push_dec(&mut v, (e.ip / 0x10000) % 256);
    v.push(0x2e);
    push_dec(&mut v, (e.ip / 0x100) % 256);
    v.push(0x2e);
    push_dec(&mut v, e.ip % 256);
    v.push(0x3a);
    push_dec(&mut v, e.port as u32);
    assert(v@ =~= endpoint_bytes(*e));
    v
}

/// Whether a string is the canonical text of some endpoint.
pub open spec fn is_canonical(s: Seq<char>) -> bool {
    exists|e: Endpoint| vstd::utf8::encode_utf8(s) == endpoint_bytes(e)
}

/// The text hashed for the `j`-th virtual node of an endpoint:
/// `a.b.c.d:port#j`.
pub open spec fn virtual_node_bytes(e: Endpoint, j: int) -> Seq<u8> {
    endpoint_bytes(e) + seq![0x23u8] + dec_bytes(j)
}

/// Formats the text of the `j`-th virtual node of an endpoint.
pub fn virtual_node_text(e: &Endpoint, j: u32) -> (v: Vec<u8>)
    ensures
        v@ == virtual_node_bytes(*e, j as int),
{
    let mut v = endpoint_to_bytes(e);
    v.push(0x23);
    push_dec(&mut v, j);
    proof {
        assert(v@ =~= virtual_node_bytes(*e, j as int));
    }
    v
}

/// Whether two byte slices hold the same bytes.
pub fn bytes_eq(a: &[u8], b: &[u8]) -> (r: bool)
    ensures
        r == (a@ == b@),
{
    if a.len() != b.len() {
        assert(a@ != b@);
        return false;
    }
    let mut i: usize = 0;
    while i < a.len()
        invariant
            i <= a@.len(),
            a@.len() == b@.len(),
            forall|j: int| 0 <= j < i ==> a@[j] == b@[j],
        decreases a@.len() - i,
    {
        if a[i] != b[i] {
            assert(a@ != b@);
            return false;
        }
        i = i + 1;
    }
    assert(a@ =~= b@);
    true
}

/// Scans a run of at most `max_digits` decimal digits starting at `start`.
///
/// Returns the value read and the position after the run. The contract is
/// aimed at canonical input: wherever the bytes from `start` hold exactly the
/// digit string of some `v` followed by a non-digit or the end, the scan
/// stops there and reads `v`.
fn scan_dec(bytes: &[u8], start: usize, max_digits: usize) -> (r: (u32, usize))
    requires
        start <= bytes@.len(),
        max_digits <= 5,
    ensures
        start <= r.1 <= bytes@.len(),
        forall|v: int|
            0 <= v && #[trigger] dec_bytes(v).len() <= max_digits && start + dec_bytes(v).len()
                <= bytes@.len() && bytes@.subrange(start as int, start + dec_bytes(v).len())
                == dec_bytes(v) && (start + dec_bytes(v).len() == bytes@.len() || !is_digit(
                bytes@[start + dec_bytes(v).len()],
            )) ==> r.0 == v && r.1 == start + dec_bytes(v).len(),
{
    let mut i: usize = start;
    let mut acc: u32 = 0;
    while i < bytes.len() && i - start < max_digits && bytes[i] >= 0x30 && bytes[i] <= 0x39
        invariant
            start <= i <= bytes@.len(),
            i - start <= max_digits,
            max_digits <= 5,
            forall|j: int| start <= j < i ==> is_digit(#[trigger] bytes@[j]),
            acc == digits_val(bytes@.subrange(start as int, i as int)),
            acc < pow10((i - start) as nat),
        decreases bytes@.len() - i,
    {
        proof {
            lemma_digits_val_bound(bytes@.subrange(start as int, i as int));
            lemma_pow10_mono((i - start) as nat, 4);
            reveal_with_fuel(pow10, 6);
            assert(pow10(4) == 10000);
        }
        let d: u8 = bytes[i];
        acc = acc * 10 + ((d - 0x30) as u32);
        i = i + 1;
        proof {
            assert(bytes@.subrange(start as int, i as int).drop_last() =~= bytes@.subrange(
                start as int,
                i - 1,
            ));
            assert(bytes@.subrange(start as int, i as int).last() == d);
        }
    }
    proof {
        assert forall|v: int|
            0 <= v && #[trigger] dec_bytes(v).len() <= max_digits && start + dec_bytes(v).len()
                <= bytes@.len() && bytes@.subrange(start as int, start + dec_bytes(v).len())
                == dec_bytes(v) && (start + dec_bytes(v).len() == bytes@.len() || !is_digit(
                bytes@[start + dec_bytes(v).len()],
            )) implies acc == v && i == start + dec_bytes(v).len() by {
            lemma_dec_bytes(v);
            let dl = dec_bytes(v).len() as int;
            assert(forall|j: int|
                start <= j < start + dl ==> is_digit(#[trigger] bytes@[j])) by {
                assert(forall|j: int|
                    start <= j < start + dl ==> bytes@[j] == dec_bytes(v)[j - start]);
            }
            // The loop cannot have stopped before the end of the digit run,
            // nor run past the non-digit (or end) that follows it.
            if i < start + dl {
                assert(is_digit(bytes@[i as int]));
                assert(i - start < max_digits);
                assert(false);
            }
            if i > start + dl {
                assert(!is_digit(bytes@[start + dl]));
                assert(is_digit(bytes@[start + dl]));
                assert(false);
            }
            assert(bytes@.subrange(start as int, i as int) == dec_bytes(v));
            assert(acc == digits_val(dec_bytes(v)));
        }
    }
    (acc, i)
}

/// Parses the canonical `a.b.c.d:port` text of an endpoint.
///
/// Returns `Some(e)` exactly when the bytes are the canonical text of `e`:
/// four dotted decimal octets with no leading zeros, a colon, and a decimal
/// port.
pub fn parse_endpoint(bytes: &[u8]) -> (r: Option<Endpoint>)
    ensures
        r is Some ==> bytes@ == endpoint_bytes(r->Some_0),
        forall|e: Endpoint| bytes@ == endpoint_bytes(e) ==> r == Some(e),
{
    let ghost target: Seq<u8> = bytes@;
    let (o0, p1) = scan_dec(bytes, 0, 3);
    if p1 >= bytes.len() || bytes[p1] != 0x2e || o0 > 255 {
        proof {
            canonical_scan_facts(bytes@);
        }
        return None;
    }
    let (o1, p2) = scan_dec(bytes, p1 + 1, 3);
    if p2 >= bytes.len() || bytes[p2] != 0x2e || o1 > 255 {
        proof {
            canonical_scan_facts(bytes@);
        }
        return None;
    }
    let (o2, p3) = scan_dec(bytes, p2 + 1, 3);
    if p3 >= bytes.len() || bytes[p3] != 0x2e || o2 > 255 {
        proof {
            canonical_scan_facts(bytes@);
        }
        return None;
    }
    let (o3, p4) = scan_dec(bytes, p3 + 1, 3);
    if p4 >= bytes.len() || bytes[p4] != 0x3a || o3 > 255 {
        proof {
            canonical_scan_facts(bytes@);
        }
        return None;
    }
    let (pt, p5) = scan_dec(bytes, p4 + 1, 5);
    if p5 != bytes.len() || pt > 65535 {
        proof {
            canonical_scan_facts(bytes@);
        }
        return None;
    }
    let ip: u32 = ((o0 * 256 + o1) * 256 + o2) * 256 + o3;
    let e = Endpoint { ip, port: pt as u16 };
    let canon = endpoint_to_bytes(&e);
    if bytes_eq(bytes, canon.as_slice()) {
        proof {
            canonical_scan_facts(bytes@);
        }
        Some(e)
    } else {
        proof {
            canonical_scan_facts(bytes@);
        }
        None
    }
}

/// On canonical input, each scan of `parse_endpoint` lands on the separators
/// of `endpoint_bytes`, so parsing recovers the endpoint.
proof fn canonical_scan_facts(bytes: Seq<u8>)
    ensures
        forall|e: Endpoint| bytes == endpoint_bytes(e) ==> canonical_shape(bytes, e),
{
    assert forall|e: Endpoint| bytes == endpoint_bytes(e) implies canonical_shape(bytes, e) by {
        lemma_canonical_shape(e);
    }
}

/// The positions of the pieces of `endpoint_bytes(e)` inside `bytes`.
pub open spec fn canonical_shape(bytes: Seq<u8>, e: Endpoint) -> bool {
    let d0 = dec_bytes(e.oct0());
    let d1 = dec_bytes(e.oct1());
    let d2 = dec_bytes(e.oct2());
    let d3 = dec_bytes(e.oct3());
    let dp = dec_bytes(e.port as int);
    let p1 = d0.len() as int;
    let p2 = p1 + 1 + d1.len();
    let p3 = p2 + 1 + d2.len();
    let p4 = p3 + 1 + d3.len();
    &&& bytes.len() == p4 + 1 + dp.len()
    &&& d0.len() <= 3 && d1.len() <= 3 && d2.len() <= 3 && d3.len() <= 3 && dp.len() <= 5
    &&& bytes.subrange(0, p1) == d0
    &&& bytes[p1] == 0x2eu8
    &&& bytes.subrange(p1 + 1, p2) == d1
    &&& bytes[p2] == 0x2eu8
    &&& bytes.subrange(p2 + 1, p3) == d2
    &&& bytes[p3] == 0x2eu8
    &&& bytes.subrange(p3 + 1, p4) == d3
    &&& bytes[p4] == 0x3au8
    &&& bytes.subrange(p4 + 1, bytes.len() as int) == dp
    &&& ((e.oct0() * 256 + e.oct1()) * 256 + e.oct2()) * 256 + e.oct3() == e.ip
}

proof fn lemma_canonical_shape(e: Endpoint)
    ensures
        canonical_shape(endpoint_bytes(e), e),
{
    let bytes = endpoint_bytes(e);
    let d0 = dec_bytes(e.oct0());
    let d1 = dec_bytes(e.oct1());
    let d2 = dec_bytes(e.oct2());
    let d3 = dec_bytes(e.oct3());
    let dp = dec_bytes(e.port as int);
    assert(0 <= e.oct0() <= 255 && 0 <= e.oct1() <= 255 && 0 <= e.oct2() <= 255 && 0 <= e.oct3()
        <= 255) by (nonlinear_arith);
    reveal_with_fuel(pow10, 6);
    assert(pow10(3) == 1000 && pow10(5) == 100000);
    lemma_dec_bytes_len(e.oct0(), 3);
    lemma_dec_bytes_len(e.oct1(), 3);
    lemma_dec_bytes_len(e.oct2(), 3);
    lemma_dec_bytes_len(e.oct3(), 3);
    lemma_dec_bytes_len(e.port as int, 5);
    let p1 = d0.len() as int;
    let p2 = p1 + 1 + d1.len();
    let p3 = p2 + 1 + d2.len();
    let p4 = p3 + 1 + d3.len();
    assert(bytes.subrange(0, p1) =~= d0);
    assert(bytes.subrange(p1 + 1, p2) =~= d1);
    assert(bytes.subrange(p2 + 1, p3) =~= d2);
    assert(bytes.subrange(p3 + 1, p4) =~= d3);
    assert(bytes.subrange(p4 + 1, bytes.len() as int) =~= dp);
    assert(((e.oct0() * 256 + e.oct1()) * 256 + e.oct2()) * 256 + e.oct3() == e.ip)
        by (nonlinear_arith);
}

} // verus!
