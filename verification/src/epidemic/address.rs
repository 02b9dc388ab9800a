//! Network addresses as plain numbers, and the text they are printed as.

use vstd::prelude::*;

verus! {

/// The network address at which a member can be reached: an IP address, as
/// one big-endian number, and a port. An IPv6 address also carries its flow
/// information and its scope identifier.
#[derive(Clone, Copy, Debug, PartialEq, Eq, Structural, Hash)]
#[allow(inconsistent_fields)]
pub enum SocketAddress {
    V4 { ip: u32, port: u16 },
    V6 { ip: u128, port: u16, flowinfo: u32, scope_id: u32 },
}

/// The four octets `a.b.c.d` of an IPv4 address read as one big-endian number.
pub open spec fn ipv4_bits(a: u8, b: u8, c: u8, d: u8) -> int {
    a * 16_777_216 + b * 65_536 + c * 256 + d
}

impl SocketAddress {
    /// The IPv4 address `a.b.c.d` with the given port.
    pub fn from_ipv4_octets(a: u8, b: u8, c: u8, d: u8, port: u16) -> (r: SocketAddress)
        ensures
            r matches SocketAddress::V4 { ip, port: p } && ip == ipv4_bits(a, b, c, d) && p == port,
    {
        let high: u32 = (a as u32) * 16_777_216u32 + (b as u32) * 65_536u32;
        let low: u32 = (c as u32) * 256u32 + (d as u32);
        SocketAddress::V4 { ip: high + low, port }
    }

    /// The port of the address.
    pub open spec fn spec_port(&self) -> u16 {
        match *self {
            SocketAddress::V4 { port, .. } => port,
            SocketAddress::V6 { port, .. } => port,
        }
    }

    /// The port of the address.
    #[verifier::when_used_as_spec(spec_port)]
    pub fn port(&self) -> (p: u16)
        ensures
            p == self.spec_port(),
    {
        match *self {
            SocketAddress::V4 { port, .. } => port,
            SocketAddress::V6 { port, .. } => port,
        }
    }
}

/// The decimal digits of `n`, as ASCII, without leading zeros.
pub open spec fn decimal_text(n: nat) -> Seq<u8>
    decreases n,
{
    if n < 10 {
        seq![(48 + n) as u8]
    } else {
        decimal_text(n / 10) + seq![(48 + n % 10) as u8]
    }
}

/// The ASCII character for one hexadecimal digit, in lower case.
pub open spec fn hex_digit(d: nat) -> u8 {
    if d < 10 {
        (48 + d) as u8
    } else {
        (87 + d) as u8
    }
}

/// The hexadecimal digits of `n`, as ASCII, in lower case and without
/// leading zeros.
pub open spec fn hex_text(n: nat) -> Seq<u8>
    decreases n,
{
    if n < 16 {
        seq![hex_digit(n)]
    } else {
        hex_text(n / 16) + seq![hex_digit(n % 16)]
    }
}

/// An IPv4 address in dotted decimal: `a.b.c.d`.
pub open spec fn ipv4_text(ip: u32) -> Seq<u8> {
    decimal_text((ip / 16_777_216) as nat) + seq![46u8] + decimal_text(
        ((ip / 65_536) % 256) as nat,
    ) + seq![46u8] + decimal_text(((ip / 256) % 256) as nat) + seq![46u8] + decimal_text(
        (ip % 256) as nat,
    )
}

/// The lowest `n` groups of sixteen bits of `x`, the highest of them first.
pub open spec fn low_segments(x: nat, n: nat) -> Seq<u16>
    decreases n,
{
    if n == 0 {
        Seq::empty()
    } else {
        low_segments(x / 65_536, (n - 1) as nat).push((x % 65_536) as u16)
    }
}

/// The eight groups of sixteen bits of an IPv6 address, the highest first.
pub open spec fn segments(ip: u128) -> Seq<u16> {
    low_segments(ip as nat, 8)
}

/// The groups in hexadecimal with a colon between each two.
pub open spec fn joined_hex(segs: Seq<u16>) -> Seq<u8>
    decreases segs.len(),
{
    if segs.len() == 0 {
        Seq::empty()
    } else if segs.len() == 1 {
        hex_text(segs[0] as nat)
    } else {
        joined_hex(segs.drop_last()) + seq![58u8] + hex_text(segs.last() as nat)
    }
}

/// How many groups from index `i` on are zero without a break.
pub open spec fn zero_run_at(segs: Seq<u16>, i: int) -> int
    decreases segs.len() - i,
{
    if 0 <= i < segs.len() && segs[i] == 0 {
        1 + zero_run_at(segs, i + 1)
    } else {
        0
    }
}

/// The index below `n` at which the longest run of zero groups starts; the
/// first such index where several runs are as long.
pub open spec fn longest_zero_run(segs: Seq<u16>, n: int) -> int
    decreases n,
{
    if n <= 1 {
        0
    } else {
        let best = longest_zero_run(segs, n - 1);
        if zero_run_at(segs, n - 1) > zero_run_at(segs, best) {
            n - 1
        } else {
            best
        }
    }
}

/// The address carries an IPv4 address in its last two groups, behind five
/// groups of zero and one of `ffff`.
pub open spec fn is_ipv4_mapped(segs: Seq<u16>) -> bool {
    segs[0] == 0 && segs[1] == 0 && segs[2] == 0 && segs[3] == 0 && segs[4] == 0 && segs[5]
        == 0xffff
}

/// An IPv6 address as text: `::ffff:a.b.c.d` where it carries an IPv4
/// address; otherwise its groups in hexadecimal, with `::` in place of the
/// longest run of two or more zero groups.
pub open spec fn ipv6_text(ip: u128) -> Seq<u8> {
    let segs = segments(ip);
    if is_ipv4_mapped(segs) {
        seq![58u8, 58u8, 102u8, 102u8, 102u8, 102u8, 58u8] + ipv4_text(
            (ip % 4_294_967_296) as u32,
        )
    } else {
        let start = longest_zero_run(segs, 8);
        let len = zero_run_at(segs, start);
        if len > 1 {
            joined_hex(segs.take(start)) + seq![58u8, 58u8] + joined_hex(segs.skip(start + len))
        } else {
            joined_hex(segs)
        }
    }
}

/// The scope of an IPv6 address as it is printed: nothing for scope 0,
/// `%` and the number for any other.
pub open spec fn scope_text(scope_id: u32) -> Seq<u8> {
    if scope_id == 0 {
        Seq::empty()
    } else {
        seq![37u8] + decimal_text(scope_id as nat)
    }
}

/// The printed form of an address: `a.b.c.d:port` for IPv4,
/// `[groups]:port` or `[groups%scope]:port` for IPv6. The flow information
/// is not printed.
pub open spec fn address_text(a: SocketAddress) -> Seq<u8> {
    match a {
        SocketAddress::V4 { ip, port } => ipv4_text(ip) + seq![58u8] + decimal_text(port as nat),
        SocketAddress::V6 { ip, port, flowinfo, scope_id } => seq![91u8] + ipv6_text(ip)
            + scope_text(scope_id) + seq![93u8, 58u8] + decimal_text(port as nat),
    }
}

/// The printed form of an optional address: `None`, or `Some(` and `)`
/// around the printed address.
pub open spec fn remote_text(r: Option<SocketAddress>) -> Seq<u8> {
    match r {
        None => seq![78u8, 111u8, 110u8, 101u8],
        Some(a) => seq![83u8, 111u8, 109u8, 101u8, 40u8] + address_text(a) + seq![41u8],
    }
}

fn push_decimal(out: &mut Vec<u8>, n: u32)
    ensures
        final(out)@ == old(out)@ + decimal_text(n as nat),
    decreases n,
{
    if n >= 10 {
        push_decimal(out, n / 10);
    }
    out.push(48u8 + (n % 10) as u8);
    assert(out@ =~= old(out)@ + decimal_text(n as nat));
}

fn push_hex(out: &mut Vec<u8>, n: u16)
    ensures
        final(out)@ == old(out)@ + hex_text(n as nat),
    decreases n,
{
    if n >= 16 {
        push_hex(out, n / 16);
    }
    let d: u8 = (n % 16) as u8;
    if d < 10 {
        out.push(48u8 + d);
    } else {
        out.push(87u8 + d);
    }
    assert(out@ =~= old(out)@ + hex_text(n as nat));
}

fn push_ipv4(out: &mut Vec<u8>, ip: u32)
    ensures
        final(out)@ == old(out)@ + ipv4_text(ip),
{
    push_decimal(out, ip / 16_777_216);
    out.push(46u8);
    push_decimal(out, (ip / 65_536) % 256);
    out.push(46u8);
    push_decimal(out, (ip / 256) % 256);
    out.push(46u8);
    push_decimal(out, ip % 256);
    assert(out@ =~= old(out)@ + ipv4_text(ip));
}

fn segments_of(ip: u128) -> (segs: [u16; 8])
    ensures
        segs@ == segments(ip),
{
    let mut segs: [u16; 8] = [0u16; 8];
    let mut rest: u128 = ip;
    let mut k: usize = 0;
    assert(segs@.skip(8) =~= Seq::empty());
    while k < 8
        invariant
            k <= 8,
            segments(ip) == low_segments(rest as nat, (8 - k) as nat) + segs@.skip(8 - k),
        decreases 8 - k,
    {
        let ghost before = segs@;
        let low: u16 = (rest % 65_536) as u16;
        segs[7 - k] = low;
        proof {
            assert(segs@.skip(7 - k) =~= seq![low] + before.skip(8 - k));
            assert(low_segments(rest as nat, (8 - k) as nat) == low_segments(
                rest as nat / 65_536,
                (7 - k) as nat,
            ).push(low));
            assert(low_segments(rest as nat, (8 - k) as nat) + before.skip(8 - k) =~= low_segments(
                rest as nat / 65_536,
                (7 - k) as nat,
            ) + segs@.skip(7 - k));
        }
        rest = rest / 65_536;
        k = k + 1;
    }
    assert(low_segments(rest as nat, 0) + segs@.skip(0) =~= segs@);
    segs
}

fn zero_runs(segs: &[u16; 8]) -> (runs: [u8; 9])
    ensures
        forall|i: int| 0 <= i <= 8 ==> runs@[i] == #[trigger] zero_run_at(segs@, i),
{
    let mut runs: [u8; 9] = [0u8; 9];
    let mut i: usize = 8;
    assert(zero_run_at(segs@, 8) == 0);
    while i > 0
        invariant
            i <= 8,
            forall|j: int| i <= j <= 8 ==> runs@[j] == #[trigger] zero_run_at(segs@, j),
            forall|j: int| i <= j <= 8 ==> runs@[j] <= 8 - j,
        decreases i,
    {
        i = i - 1;
        if segs[i] == 0 {
            assert(runs@[i + 1] == zero_run_at(segs@, i + 1));
            runs[i] = 1 + runs[i + 1];
        } else {
            runs[i] = 0;
        }
    }
    runs
}

fn push_joined(out: &mut Vec<u8>, segs: &[u16; 8], from: usize, to: usize)
    requires
        from <= to <= 8,
    ensures
        final(out)@ == old(out)@ + joined_hex(segs@.subrange(from as int, to as int)),
{
    let mut i: usize = from;
    assert(segs@.subrange(from as int, from as int) =~= Seq::empty());
    while i < to
        invariant
            from <= i <= to <= 8,
            out@ == old(out)@ + joined_hex(segs@.subrange(from as int, i as int)),
        decreases to - i,
    {
        let ghost before = out@;
        let ghost done = segs@.subrange(from as int, i as int);
        let ghost next = segs@.subrange(from as int, i + 1);
        if i > from {
            out.push(58u8);
        }
        push_hex(out, segs[i]);
        proof {
            assert(next.drop_last() =~= done);
            assert(next.last() == segs@[i as int]);
            assert(out@ =~= old(out)@ + joined_hex(next));
        }
        i = i + 1;
    }
}

fn push_ipv6(out: &mut Vec<u8>, ip: u128)
    ensures
        final(out)@ == old(out)@ + ipv6_text(ip),
{
    let segs = segments_of(ip);
    if segs[0] == 0 && segs[1] == 0 && segs[2] == 0 && segs[3] == 0 && segs[4] == 0 && segs[5]
        == 0xffff {
        out.push(58u8);
        out.push(58u8);
        out.push(102u8);
        out.push(102u8);
        out.push(102u8);
        out.push(102u8);
        out.push(58u8);
        push_ipv4(out, (ip % 4_294_967_296) as u32);
        assert(out@ =~= old(out)@ + ipv6_text(ip));
        return ;
    }
    let runs = zero_runs(&segs);
    let mut best: usize = 0;
    let mut n: usize = 1;
    while n < 8
        invariant
            1 <= n <= 8,
            best < n,
            best == longest_zero_run(segs@, n as int),
            forall|i: int| 0 <= i <= 8 ==> runs@[i] == #[trigger] zero_run_at(segs@, i),
        decreases 8 - n,
    {
        assert(runs@[n as int] == zero_run_at(segs@, n as int));
        assert(runs@[best as int] == zero_run_at(segs@, best as int));
        if runs[n] > runs[best] {
            best = n;
        }
        n = n + 1;
    }
    assert(runs@[best as int] == zero_run_at(segs@, best as int));
    let len: usize = runs[best] as usize;
    if len > 1 {
        proof {
            lemma_zero_run_fits(segs@, best as int);
        }
        push_joined(out, &segs, 0, best);
        out.push(58u8);
        out.push(58u8);
        push_joined(out, &segs, best + len, 8);
        proof {
            assert(segs@.subrange(0, best as int) =~= segs@.take(best as int));
            assert(segs@.subrange(best + len, 8) =~= segs@.skip(best + len));
            assert(out@ =~= old(out)@ + ipv6_text(ip));
        }
    } else {
        push_joined(out, &segs, 0, 8);
        proof {
            assert(segs@.subrange(0, 8) =~= segs@);
        }
    }
}

proof fn lemma_zero_run_fits(segs: Seq<u16>, i: int)
    requires
        0 <= i <= segs.len(),
    ensures
        0 <= zero_run_at(segs, i) <= segs.len() - i,
    decreases segs.len() - i,
{
    if i < segs.len() && segs[i] == 0 {
        lemma_zero_run_fits(segs, i + 1);
    }
}

impl SocketAddress {
    /// The address as it is printed.
    pub fn to_text(&self) -> (text: Vec<u8>)
        ensures
            text@ == address_text(*self),
    {
        let mut out: Vec<u8> = Vec::new();
        match *self {
            SocketAddress::V4 { ip, port } => {
                push_ipv4(&mut out, ip);
                out.push(58u8);
                push_decimal(&mut out, port as u32);
            },
            SocketAddress::V6 { ip, port, flowinfo, scope_id } => {
                out.push(91u8);
                push_ipv6(&mut out, ip);
                if scope_id != 0 {
                    out.push(37u8);
                    push_decimal(&mut out, scope_id);
                }
                out.push(93u8);
                out.push(58u8);
                push_decimal(&mut out, port as u32);
            },
        }
        assert(out@ =~= address_text(*self));
        out
    }
}

/// The printed form of an optional address.
pub fn remote_text_of(r: &Option<SocketAddress>) -> (text: Vec<u8>)
    ensures
        text@ == remote_text(*r),
{
    let mut out: Vec<u8> = Vec::new();
    match r {
        None => {
            out.push(78u8);
            out.push(111u8);
            out.push(110u8);
            out.push(101u8);
        },
        Some(a) => {
            out.push(83u8);
            out.push(111u8);
            out.push(109u8);
            out.push(101u8);
            out.push(40u8);
            let ghost head = out@;
            let text = a.to_text();
            let mut i: usize = 0;
            while i < text.len()
                invariant
                    i <= text@.len(),
                    out@ == head + text@.take(i as int),
                decreases text@.len() - i,
            {
                out.push(text[i]);
                assert(out@ =~= head + text@.take(i + 1));
                i = i + 1;
            }
            assert(text@.take(i as int) =~= text@);
            out.push(41u8);
        },
    }
    assert(out@ =~= remote_text(*r));
    out
}

} // verus!
