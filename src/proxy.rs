use vstd::prelude::*;

verus! {

/// An IP address: four octets, or eight 16-bit groups.
#[derive(Debug, Clone, Copy)]
pub enum IpAddress {
    V4([u8; 4]),
    V6([u16; 8]),
}

/// An IP address and a port.
#[derive(Debug, Clone, Copy)]
pub struct SocketAddress {
    pub ip: IpAddress,
    pub port: u16,
}

/// The ASCII digit of `n`, below sixteen, in lower case.
pub open spec fn digit_char(n: nat) -> u8 {
    if n < 10 {
        (48 + n) as u8
    } else {
        (87 + n) as u8
    }
}

/// `n` in decimal, without leading zeros.
pub open spec fn decimal(n: nat) -> Seq<u8>
    decreases n,
{
    if n < 10 {
        seq![digit_char(n)]
    } else {
        decimal(n / 10).push(digit_char(n % 10))
    }
}

/// `n` in lower-case hexadecimal, without leading zeros.
pub open spec fn hex(n: nat) -> Seq<u8>
    decreases n,
{
    if n < 16 {
        seq![digit_char(n)]
    } else {
        hex(n / 16).push(digit_char(n % 16))
    }
}

/// Dotted-decimal text of four octets.
pub open spec fn dotted(o: Seq<u8>) -> Seq<u8> {
    decimal(o[0] as nat) + seq![46u8] + decimal(o[1] as nat) + seq![46u8] + decimal(o[2] as nat)
        + seq![46u8] + decimal(o[3] as nat)
}

/// Groups in hexadecimal, separated by `:`.
pub open spec fn hex_groups(g: Seq<u16>) -> Seq<u8>
    decreases g.len(),
{
    if g.len() == 0 {
        Seq::empty()
    } else if g.len() == 1 {
        hex(g[0] as nat)
    } else {
        hex_groups(g.drop_last()) + seq![58u8] + hex(g.last() as nat)
    }
}

/// How many zero groups start at position `i`.
pub open spec fn zero_run(g: Seq<u16>, i: int) -> nat
    decreases g.len() - i,
{
    if 0 <= i < g.len() && g[i] == 0 {
        1 + zero_run(g, i + 1)
    } else {
        0
    }
}

/// The run of zeros at `s` is the longest, and the first of that length.
pub open spec fn is_longest_run(g: Seq<u16>, s: int) -> bool {
    &&& 0 <= s < g.len()
    &&& forall|i: int| 0 <= i < g.len() ==> zero_run(g, i) <= zero_run(g, s)
    &&& forall|i: int| 0 <= i < s ==> zero_run(g, i) < zero_run(g, s)
}

/// An IPv4 address carried in IPv6 as `::ffff:a.b.c.d`.
pub open spec fn is_v4_mapped(g: Seq<u16>) -> bool {
    &&& g.len() == 8
    &&& forall|i: int| 0 <= i < 5 ==> g[i] == 0
    &&& g[5] == 0xffff
}

/// The octets of the IPv4 address in the last two groups.
pub open spec fn mapped_octets(g: Seq<u16>) -> Seq<u8> {
    seq![(g[6] / 256) as u8, (g[6] % 256) as u8, (g[7] / 256) as u8, (g[7] % 256) as u8]
}

/// Text of eight groups: an IPv4-mapped address as `::ffff:` and dotted
/// decimal; otherwise hexadecimal groups with the first longest run of two or
/// more zero groups written `::`.
pub open spec fn ipv6_text(g: Seq<u16>) -> Seq<u8> {
    if is_v4_mapped(g) {
        seq![58u8, 58u8, 102u8, 102u8, 102u8, 102u8, 58u8] + dotted(mapped_octets(g))
    } else if exists|s: int| is_longest_run(g, s) && zero_run(g, s) >= 2 {
        let s = choose|s: int| is_longest_run(g, s) && zero_run(g, s) >= 2;
        hex_groups(g.take(s)) + seq![58u8, 58u8] + hex_groups(g.skip(s + zero_run(g, s)))
    } else {
        hex_groups(g)
    }
}

/// The text of an IP address.
pub open spec fn ip_text(ip: IpAddress) -> Seq<u8> {
    match ip {
        IpAddress::V4(o) => dotted(o@),
        IpAddress::V6(g) => ipv6_text(g@),
    }
}

/// `PROXY TCP4 ` or `PROXY TCP6 `, chosen by the client's address family.
pub open spec fn proxy_tag(client: IpAddress) -> Seq<u8> {
    seq![80u8, 82u8, 79u8, 88u8, 89u8, 32u8, 84u8, 67u8, 80u8] + seq![
        if client is V4 {
            52u8
        } else {
            54u8
        },
    ] + seq![32u8]
}

/// The PROXY protocol version 1 line for a client seen on a bound address.
pub open spec fn proxy_line(client: SocketAddress, bound: SocketAddress) -> Seq<u8> {
    proxy_tag(client.ip) + ip_text(client.ip) + seq![32u8] + ip_text(bound.ip) + seq![32u8]
        + decimal(client.port as nat) + seq![32u8] + decimal(bound.port as nat) + seq![13u8, 10u8]
}

fn append_bytes(out: &mut Vec<u8>, bytes: &[u8])
    ensures
        final(out)@ == old(out)@ + bytes@,
{
    let mut i: usize = 0;
    while i < bytes.len()
        invariant
            i <= bytes@.len(),
            out@ == old(out)@ + bytes@.take(i as int),
        decreases bytes@.len() - i,
    {
        out.push(bytes[i]);
        i = i + 1;
        assert(out@ =~= old(out)@ + bytes@.take(i as int));
    }
    assert(bytes@.take(bytes@.len() as int) =~= bytes@);
}

fn digit_byte(n: u32) -> (r: u8)
    requires
        n < 16,
    ensures
        r == digit_char(n as nat),
{
    if n < 10 {
        (48 + n) as u8
    } else {
        (87 + n) as u8
    }
}

fn push_decimal(out: &mut Vec<u8>, n: u32)
    ensures
        final(out)@ == old(out)@ + decimal(n as nat),
    decreases n,
{
    if n >= 10 {
        push_decimal(out, n / 10);
    }
    out.push(digit_byte(n % 10));
    assert(out@ =~= old(out)@ + decimal(n as nat));
}

fn push_hex(out: &mut Vec<u8>, n: u32)
    ensures
        final(out)@ == old(out)@ + hex(n as nat),
    decreases n,
{
    if n >= 16 {
        push_hex(out, n / 16);
    }
    out.push(digit_byte(n % 16));
    assert(out@ =~= old(out)@ + hex(n as nat));
}

fn push_dotted(out: &mut Vec<u8>, o: [u8; 4])
    ensures
        final(out)@ == old(out)@ + dotted(o@),
{
    push_decimal(out, o[0] as u32);
    out.push(46u8);
    push_decimal(out, o[1] as u32);
    out.push(46u8);
    push_decimal(out, o[2] as u32);
    out.push(46u8);
    push_decimal(out, o[3] as u32);
    assert(out@ =~= old(out)@ + dotted(o@));
}

/// Appends groups `from..to` of `g` in hexadecimal, separated by `:`.
fn push_hex_groups(out: &mut Vec<u8>, g: &[u16; 8], from: usize, to: usize)
    requires
        from <= to <= 8,
    ensures
        final(out)@ == old(out)@ + hex_groups(g@.subrange(from as int, to as int)),
{
    let mut i: usize = from;
    while i < to
        invariant
            from <= i <= to <= 8,
            g@.len() == 8,
            out@ == old(out)@ + hex_groups(g@.subrange(from as int, i as int)),
        decreases to - i,
    {
        let ghost before = out@;
        if i > from {
            out.push(58u8);
        }
        push_hex(out, g[i] as u32);
        let ghost sub = g@.subrange(from as int, i as int + 1);
        assert(sub.drop_last() =~= g@.subrange(from as int, i as int));
        if i == from {
            assert(sub =~= seq![g@[i as int]]);
        }
        i = i + 1;
        assert(out@ =~= old(out)@ + hex_groups(g@.subrange(from as int, i as int)));
    }
}

/// The first longest run of zero groups: its start and its length.
fn longest_zero_run(g: &[u16; 8]) -> (r: (usize, usize))
    ensures
        r.0 < 8,
        r.0 + r.1 <= 8,
        r.1 == zero_run(g@, r.0 as int),
        is_longest_run(g@, r.0 as int),
{
    let mut best_s: usize = 0;
    let mut best_len: usize = 0;
    let mut i: usize = 0;
    while i < 8
        invariant
            g@.len() == 8,
            i <= 8,
            best_s < 8,
            best_s + best_len <= 8,
            i > 0 ==> best_len == zero_run(g@, best_s as int),
            i == 0 ==> best_s == 0 && best_len == 0,
            forall|j: int| 0 <= j < i ==> zero_run(g@, j) <= best_len,
            forall|j: int| 0 <= j < best_s ==> zero_run(g@, j) < best_len,
        decreases 8 - i,
    {
        let mut c: usize = 0;
        while i + c < 8 && g[i + c] == 0
            invariant
                g@.len() == 8,
                i < 8,
                i + c <= 8,
                zero_run(g@, i as int) == c + zero_run(g@, (i + c) as int),
            decreases 8 - i - c,
        {
            c = c + 1;
        }
        assert(zero_run(g@, (i + c) as int) == 0);
        if i == 0 || c > best_len {
            best_s = i;
            best_len = c;
        }
        i = i + 1;
    }
    (best_s, best_len)
}

/// Appends the text of eight IPv6 groups.
fn push_ipv6(out: &mut Vec<u8>, g: [u16; 8])
    ensures
        final(out)@ == old(out)@ + ipv6_text(g@),
{
    let ghost gs = g@;
    if g[0] == 0 && g[1] == 0 && g[2] == 0 && g[3] == 0 && g[4] == 0 && g[5] == 0xffff {
        assert(is_v4_mapped(gs));
        let mapped: [u8; 4] = [(g[6] / 256) as u8, (g[6] % 256) as u8, (g[7] / 256) as u8, (g[7] % 256) as u8];
        assert(mapped@ =~= mapped_octets(gs));
        let tag: [u8; 7] = [58u8, 58u8, 102u8, 102u8, 102u8, 102u8, 58u8];
        append_bytes(out, tag.as_slice());
        push_dotted(out, mapped);
        assert(out@ =~= old(out)@ + ipv6_text(gs));
        return;
    }
    assert(!is_v4_mapped(gs));
    let (s, l) = longest_zero_run(&g);
    if l >= 2 {
        assert(is_longest_run(gs, s as int) && zero_run(gs, s as int) >= 2);
        proof {
            let t = choose|t: int| is_longest_run(gs, t) && zero_run(gs, t) >= 2;
            if t < s {
                assert(zero_run(gs, t) < zero_run(gs, s as int));
            }
            if t > s {
                assert(zero_run(gs, s as int) < zero_run(gs, t));
            }
            assert(t == s);
        }
        push_hex_groups(out, &g, 0, s);
        out.push(58u8);
        out.push(58u8);
        push_hex_groups(out, &g, s + l, 8);
        assert(gs.take(s as int) =~= gs.subrange(0, s as int));
        assert(gs.skip((s + l) as int) =~= gs.subrange((s + l) as int, 8));
        assert(out@ =~= old(out)@ + ipv6_text(gs));
    } else {
        assert forall|t: int| is_longest_run(gs, t) implies zero_run(gs, t) < 2 by {
            assert(zero_run(gs, t) <= zero_run(gs, s as int));
        }
        push_hex_groups(out, &g, 0, 8);
        assert(gs.subrange(0, 8) =~= gs);
    }
}

fn push_ip(out: &mut Vec<u8>, ip: IpAddress)
    ensures
        final(out)@ == old(out)@ + ip_text(ip),
{
    match ip {
        IpAddress::V4(o) => push_dotted(out, o),
        IpAddress::V6(g) => push_ipv6(out, g),
    }
}

/// The PROXY protocol version 1 line that tells an upstream which client it
/// serves and on which address that client reached us; the address family
/// named is the client's.
pub fn proxy_header(client: SocketAddress, bound: SocketAddress) -> (r: Vec<u8>)
    ensures
        r@ == proxy_line(client, bound),
{
    let mut out: Vec<u8> = Vec::new();
    let family: u8 = match client.ip {
        IpAddress::V4(_) => 52u8,
        IpAddress::V6(_) => 54u8,
    };
    let tag: [u8; 9] = [80u8, 82u8, 79u8, 88u8, 89u8, 32u8, 84u8, 67u8, 80u8];
    append_bytes(&mut out, tag.as_slice());
    out.push(family);
    out.push(32u8);
    push_ip(&mut out, client.ip);
    out.push(32u8);
    push_ip(&mut out, bound.ip);
    out.push(32u8);
    push_decimal(&mut out, client.port as u32);
    out.push(32u8);
    push_decimal(&mut out, bound.port as u32);
    out.push(13u8);
    out.push(10u8);
    assert(out@ =~= proxy_line(client, bound));
    out
}

} // verus!
