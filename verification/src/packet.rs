//! The UDP datagram in an IP packet.
//!
//! A capture hands over IP packets without a link-layer header. Lengths in the headers are
//! trusted as far as the bytes go: a packet that was cut short gives what is there.
use crate::endian;
use vstd::prelude::*;

verus! {

/// A UDP datagram.
#[derive(Debug, Clone, Copy, PartialEq, Eq)]
pub struct UdpView<'a> {
    pub source_port: u16,
    pub destination_port: u16,
    pub payload: &'a [u8],
}

/// What a [`UdpView`] shows.
pub struct Datagram {
    pub source_port: u16,
    pub destination_port: u16,
    pub payload: Seq<u8>,
}

impl<'a> View for UdpView<'a> {
    type V = Datagram;

    open spec fn view(&self) -> Datagram {
        Datagram {
            source_port: self.source_port,
            destination_port: self.destination_port,
            payload: self.payload@,
        }
    }
}

/// The datagram that was found, if any.
pub open spec fn shown(udp: Option<UdpView<'_>>) -> Option<Datagram> {
    match udp {
        Some(udp) => Some(udp@),
        None => None,
    }
}

pub const IPPROTO_UDP: u8 = 17;

const UDP_HEADER: usize = 8;

const IPV4_HEADER: usize = 20;

const IPV6_HEADER: usize = 40;

pub open spec fn least(a: int, b: int) -> int {
    if a <= b {
        a
    } else {
        b
    }
}

/// A datagram with its header. A declared length below that of the header counts as not
/// declared.
pub open spec fn datagram_in(d: Seq<u8>) -> Option<Datagram> {
    if d.len() < 8 {
        None
    } else {
        let declared = endian::be16(d, 4);
        let end = if declared >= 8 {
            least(declared, d.len() as int)
        } else {
            d.len() as int
        };
        Some(
            Datagram {
                source_port: endian::be16(d, 0) as u16,
                destination_port: endian::be16(d, 2) as u16,
                payload: d.subrange(8, end),
            },
        )
    }
}

/// The datagram in an IPv4 packet. Only a first fragment has a UDP header.
pub open spec fn ipv4_datagram(p: Seq<u8>) -> Option<Datagram> {
    let header = (p[0] % 16) * 4;
    if p.len() < 20 || header < 20 || p.len() < header || p[9] != IPPROTO_UDP || endian::be16(p, 6)
        % 0x2000 != 0 {
        None
    } else {
        let total = endian::be16(p, 2);
        let end = if total >= header {
            least(total, p.len() as int)
        } else {
            p.len() as int
        };
        datagram_in(p.subrange(header, end))
    }
}

/// Whether a header is one that is stepped over: hop-by-hop options, routing, or destination
/// options.
pub open spec fn is_extension(header: u8) -> bool {
    header == 0 || header == 43 || header == 60
}

/// The datagram behind the extension headers of an IPv6 packet that start at `offset`. Where
/// the packet is a fragment, or another protocol follows, there is none.
pub open spec fn behind_extensions(p: Seq<u8>, end: int, next: u8, offset: int) -> Option<Datagram>
    decreases end - offset,
{
    if next == IPPROTO_UDP {
        datagram_in(p.subrange(offset, end))
    } else if !is_extension(next) || offset + 2 > p.len() {
        None
    } else {
        let behind = offset + (p[offset + 1] + 1) * 8;
        if behind > end {
            None
        } else {
            behind_extensions(p, end, p[offset], behind)
        }
    }
}

/// The datagram in an IPv6 packet.
pub open spec fn ipv6_datagram(p: Seq<u8>) -> Option<Datagram> {
    if p.len() < 40 {
        None
    } else {
        let end = least(40 + endian::be16(p, 4), p.len() as int);
        behind_extensions(p, end, p[6], 40)
    }
}

/// The datagram in an IP packet.
pub open spec fn udp_in(p: Seq<u8>) -> Option<Datagram> {
    if p.len() == 0 {
        None
    } else if p[0] / 16 == 4 {
        ipv4_datagram(p)
    } else if p[0] / 16 == 6 {
        ipv6_datagram(p)
    } else {
        None
    }
}

fn parse_udp_header(datagram: &[u8]) -> (r: Option<UdpView<'_>>)
    ensures
        shown(r) == datagram_in(datagram@),
{
    let len: usize = datagram.len();
    if len < UDP_HEADER {
        return None;
    }
    let declared: usize = endian::read_be16(datagram, 4) as usize;
    let end: usize = if declared >= UDP_HEADER && declared < len {
        declared
    } else {
        len
    };
    Some(
        UdpView {
            source_port: endian::read_be16(datagram, 0),
            destination_port: endian::read_be16(datagram, 2),
            payload: vstd::slice::slice_subrange(datagram, UDP_HEADER, end),
        },
    )
}

fn parse_ipv4(packet: &[u8]) -> (r: Option<UdpView<'_>>)
    requires
        packet.len() > 0,
    ensures
        shown(r) == ipv4_datagram(packet@),
{
    let len: usize = packet.len();
    let header: usize = (packet[0] % 16) as usize * 4;
    if len < IPV4_HEADER || header < IPV4_HEADER || len < header {
        return None;
    }
    if packet[9] != IPPROTO_UDP || endian::read_be16(packet, 6) % 0x2000 != 0 {
        return None;
    }
    let total: usize = endian::read_be16(packet, 2) as usize;
    let end: usize = if total >= header && total < len {
        total
    } else {
        len
    };
    parse_udp_header(vstd::slice::slice_subrange(packet, header, end))
}

fn parse_ipv6(packet: &[u8]) -> (r: Option<UdpView<'_>>)
    ensures
        shown(r) == ipv6_datagram(packet@),
{
    let len: usize = packet.len();
    if len < IPV6_HEADER {
        return None;
    }
    let declared: usize = endian::read_be16(packet, 4) as usize;
    let end: usize = if declared < len - IPV6_HEADER {
        IPV6_HEADER + declared
    } else {
        len
    };
    let mut next: u8 = packet[6];
    let mut offset: usize = IPV6_HEADER;
    loop
        invariant
            len == packet@.len(),
            len <= usize::MAX,
            40 <= offset <= end <= len,
            ipv6_datagram(packet@) == behind_extensions(packet@, end as int, next, offset as int),
        decreases end - offset,
    {
        if next == IPPROTO_UDP {
            return parse_udp_header(vstd::slice::slice_subrange(packet, offset, end));
        }
        if !(next == 0 || next == 43 || next == 60) || len - offset < 2 {
            return None;
        }
        let step: usize = (packet[offset + 1] as usize + 1) * 8;
        if step > end - offset {
            return None;
        }
        next = packet[offset];
        offset = offset + step;
    }
}

/// The UDP datagram in an IPv4 or IPv6 packet. There is none in a packet of another protocol
/// or version, in one whose headers are cut short, or in a fragment that does not start at
/// the UDP header.
pub fn parse_udp(packet: &[u8]) -> (r: Option<UdpView<'_>>)
    ensures
        shown(r) == udp_in(packet@),
{
    if packet.len() == 0 {
        return None;
    }
    match packet[0] / 16 {
        4 => parse_ipv4(packet),
        6 => parse_ipv6(packet),
        _ => None,
    }
}

/// Cutting a datagram short cuts its payload, and changes nothing else.
pub proof fn law_truncation_shrinks_the_payload(d: Seq<u8>, n: int)
    requires
        8 <= n <= d.len(),
    ensures
        match (datagram_in(d), datagram_in(d.take(n))) {
            (Some(whole), Some(part)) => {
                &&& part.source_port == whole.source_port
                &&& part.destination_port == whole.destination_port
                &&& part.payload == whole.payload.take(
                    least(part.payload.len() as int, whole.payload.len() as int),
                )
            },
            _ => false,
        },
{
    let t = d.take(n);
    assert(endian::be16(t, 0) == endian::be16(d, 0));
    assert(endian::be16(t, 2) == endian::be16(d, 2));
    assert(endian::be16(t, 4) == endian::be16(d, 4));
    let whole = datagram_in(d)->Some_0;
    let part = datagram_in(t)->Some_0;
    assert(part.payload =~= whole.payload.take(
        least(part.payload.len() as int, whole.payload.len() as int),
    ));
}

/// A datagram with its header: ports, length, any checksum, payload.
pub open spec fn udp_bytes(d: Datagram, checksum: Seq<u8>) -> Seq<u8> {
    endian::be16_bytes(d.source_port) + endian::be16_bytes(d.destination_port)
        + endian::be16_bytes((8 + d.payload.len()) as u16) + checksum + d.payload
}

/// A datagram whose length can be written down, and its checksum.
pub open spec fn can_be_sent(d: Datagram, checksum: Seq<u8>) -> bool {
    d.payload.len() + 8 <= 0xFFFF && checksum.len() == 2
}

proof fn lemma_datagram_read(d: Datagram, checksum: Seq<u8>)
    requires
        can_be_sent(d, checksum),
    ensures
        udp_bytes(d, checksum).len() == 8 + d.payload.len(),
        datagram_in(udp_bytes(d, checksum)) == Some(d),
{
    let b = udp_bytes(d, checksum);
    assert(b.subrange(0, 2) =~= endian::be16_bytes(d.source_port));
    assert(b.subrange(2, 4) =~= endian::be16_bytes(d.destination_port));
    assert(b.subrange(4, 6) =~= endian::be16_bytes((8 + d.payload.len()) as u16));
    endian::lemma_round_trip_16(b, 0, d.source_port);
    endian::lemma_round_trip_16(b, 2, d.destination_port);
    endian::lemma_round_trip_16(b, 4, (8 + d.payload.len()) as u16);
    assert(b.subrange(8, b.len() as int) =~= d.payload);
}

/// An IPv4 header with or without options: version 4, its own length in words, the length of
/// the whole packet, UDP, and not a later fragment. The flags, the identification, the time to
/// live, the checksum, the addresses and the options may be anything.
pub open spec fn is_ipv4_header(header: Seq<u8>, datagram_len: nat) -> bool {
    &&& 20 <= header.len() <= 60
    &&& header[0] as int == 4 * 16 + header.len() / 4
    &&& header.len() % 4 == 0
    &&& header[2] * 256 + header[3] == header.len() + datagram_len
    &&& header[6] % 32 == 0
    &&& header[7] == 0
    &&& header[9] == 17
}

/// The datagram of an IPv4 packet is found, behind any header that says UDP and no later
/// fragment, and whatever padding follows.
pub proof fn law_ipv4_datagrams_are_found(
    header: Seq<u8>,
    d: Datagram,
    checksum: Seq<u8>,
    padding: Seq<u8>,
)
    requires
        can_be_sent(d, checksum),
        is_ipv4_header(header, udp_bytes(d, checksum).len()),
    ensures
        udp_in(header + udp_bytes(d, checksum) + padding) == Some(d),
{
    lemma_datagram_read(d, checksum);
    let inner = udp_bytes(d, checksum);
    let p = header + inner + padding;
    let size = header.len() as int;
    assert(p[0] == header[0] && p[2] == header[2] && p[3] == header[3]);
    assert(p[6] == header[6] && p[7] == header[7] && p[9] == header[9]);
    assert((p[0] % 16) * 4 == size);
    assert(endian::be16(p, 2) == size + inner.len());
    assert(endian::be16(p, 6) % 0x2000 == 0);
    assert(p.subrange(size, size + inner.len()) =~= inner);
}

/// The three flag bits do not matter: whether a packet may be fragmented, or more fragments
/// follow the first, its datagram is the same.
pub proof fn law_flags_do_not_matter(p: Seq<u8>, flags: u8)
    requires
        p.len() >= 20,
        p[0] / 16 == 4,
        flags < 8,
    ensures
        udp_in(p.update(6, (flags * 32 + p[6] % 32) as u8)) == udp_in(p),
{
    let q = p.update(6, (flags * 32 + p[6] % 32) as u8);
    let size = (p[0] % 16) * 4;
    assert(endian::be16(q, 6) % 0x2000 == endian::be16(p, 6) % 0x2000);
    if size >= 20 && p.len() >= size {
        let total = endian::be16(p, 2);
        let end = if total >= size {
            least(total, p.len() as int)
        } else {
            p.len() as int
        };
        assert(q.subrange(size, end) =~= p.subrange(size, end));
    }
}

/// There is no datagram in a later fragment, in a packet of another protocol, or in one that
/// is neither IPv4 nor IPv6.
pub proof fn law_other_packets_hold_no_datagram(p: Seq<u8>)
    requires
        p.len() > 0,
        ({
            ||| p[0] / 16 != 4 && p[0] / 16 != 6
            ||| p[0] / 16 == 4 && p.len() >= 20 && (p[9] != 17 || p[6] % 32 != 0 || p[7] != 0)
            ||| p[0] / 16 == 4 && (p.len() < 20 || p[0] % 16 < 5)
            ||| p[0] / 16 == 6 && p.len() < 40
            ||| p[0] / 16 == 6 && p.len() >= 40 && p[6] != 17 && p[6] != 0 && p[6] != 43 && p[6] != 60
        }),
    ensures
        udp_in(p) is None,
{
    if p[0] / 16 == 4 && p.len() >= 20 {
        assert(endian::be16(p, 6) % 0x2000 == (p[6] % 32) * 256 + p[7]);
    }
}

/// Extension headers of an IPv6 packet, the outermost first: the kind of each and what follows
/// its first two bytes.
pub open spec fn extension_bytes(extensions: Seq<(u8, Seq<u8>)>, last: u8) -> Seq<u8>
    decreases extensions.len(),
{
    if extensions.len() == 0 {
        Seq::empty()
    } else {
        let inner = extensions.skip(1);
        let body = extensions[0].1;
        seq![first_kind(inner, last), ((body.len() + 2) / 8 - 1) as u8] + body + extension_bytes(
            inner,
            last,
        )
    }
}

/// The kind of the first header.
pub open spec fn first_kind(extensions: Seq<(u8, Seq<u8>)>, last: u8) -> u8 {
    if extensions.len() == 0 {
        last
    } else {
        extensions[0].0
    }
}

/// Hop-by-hop options, routing and destination options, in multiples of eight bytes.
pub open spec fn are_extensions(extensions: Seq<(u8, Seq<u8>)>) -> bool {
    forall|i: int|
        0 <= i < extensions.len() ==> {
            let (kind, body) = #[trigger] extensions[i];
            &&& kind == 0 || kind == 43 || kind == 60
            &&& (body.len() + 2) % 8 == 0
            &&& 8 <= body.len() + 2 <= 2048
        }
}

/// An IPv6 header that says how much follows it, and which header comes first. The traffic
/// class, the flow label, the hop limit and the addresses may be anything.
pub open spec fn is_ipv6_header(header: Seq<u8>, first: u8, len: nat) -> bool {
    &&& header.len() == 40
    &&& header[0] / 16 == 6
    &&& header[4] * 256 + header[5] == len
    &&& header[6] == first
}

proof fn lemma_behind_extensions(
    p: Seq<u8>,
    end: int,
    offset: int,
    extensions: Seq<(u8, Seq<u8>)>,
    d: Datagram,
    checksum: Seq<u8>,
)
    requires
        can_be_sent(d, checksum),
        are_extensions(extensions),
        0 <= offset <= end <= p.len(),
        p.subrange(offset, end) == extension_bytes(extensions, 17) + udp_bytes(d, checksum),
    ensures
        behind_extensions(p, end, first_kind(extensions, 17), offset) == Some(d),
    decreases extensions.len(),
{
    let inner = udp_bytes(d, checksum);
    lemma_datagram_read(d, checksum);
    if extensions.len() == 0 {
        assert(extension_bytes(extensions, 17) + inner =~= inner);
    } else {
        let (kind, body) = extensions[0];
        let rest = extensions.skip(1);
        let size = body.len() + 2;
        let all = p.subrange(offset, end);
        let tail = extension_bytes(rest, 17) + inner;
        assert(all =~= seq![first_kind(rest, 17), (size / 8 - 1) as u8] + body + tail);
        assert(all[0] == p[offset] && all[1] == p[offset + 1]);
        assert(all.len() == size + tail.len());
        let behind = offset + size;
        assert((p[offset + 1] + 1) * 8 == size);
        assert(p.subrange(behind, end) =~= all.subrange(size as int, all.len() as int));
        assert(all.subrange(size as int, all.len() as int) =~= tail);
        assert forall|i: int| 0 <= i < rest.len() implies rest[i] == extensions[i + 1] by {}
        lemma_behind_extensions(p, end, behind, rest, d, checksum);
    }
}

/// The datagram of an IPv6 packet is found, behind any extension headers that are stepped
/// over, and whatever padding follows.
pub proof fn law_ipv6_datagrams_are_found(
    header: Seq<u8>,
    extensions: Seq<(u8, Seq<u8>)>,
    d: Datagram,
    checksum: Seq<u8>,
    padding: Seq<u8>,
)
    requires
        can_be_sent(d, checksum),
        are_extensions(extensions),
        is_ipv6_header(
            header,
            first_kind(extensions, 17),
            extension_bytes(extensions, 17).len() + udp_bytes(d, checksum).len(),
        ),
    ensures
        udp_in(
            header + extension_bytes(extensions, 17) + udp_bytes(d, checksum) + padding,
        ) == Some(d),
{
    let inner = extension_bytes(extensions, 17) + udp_bytes(d, checksum);
    let p = header + extension_bytes(extensions, 17) + udp_bytes(d, checksum) + padding;
    assert(p[0] == header[0] && p[4] == header[4] && p[5] == header[5] && p[6] == header[6]);
    assert(endian::be16(p, 4) == inner.len());
    let end = 40int + inner.len();
    assert(p.subrange(40, end) =~= inner);
    lemma_behind_extensions(p, end, 40, extensions, d, checksum);
}

/// A packet that was cut short in its payload gives the payload that is there, under the same
/// ports; one that was cut inside the header of its datagram gives none.
pub proof fn law_a_cut_packet_gives_what_is_there(
    header: Seq<u8>,
    d: Datagram,
    checksum: Seq<u8>,
    n: int,
)
    requires
        can_be_sent(d, checksum),
        is_ipv4_header(header, udp_bytes(d, checksum).len()),
        0 <= n <= udp_bytes(d, checksum).len(),
    ensures
        n >= 8 ==> udp_in(header + udp_bytes(d, checksum).take(n)) == Some(
            Datagram { payload: d.payload.take(n - 8), ..d },
        ),
        n < 8 ==> udp_in(header + udp_bytes(d, checksum).take(n)) is None,
{
    lemma_datagram_read(d, checksum);
    let inner = udp_bytes(d, checksum);
    let part = inner.take(n);
    let p = header + part;
    let size = header.len() as int;
    assert(p[0] == header[0] && p[2] == header[2] && p[3] == header[3]);
    assert(p[6] == header[6] && p[7] == header[7] && p[9] == header[9]);
    assert((p[0] % 16) * 4 == size);
    assert(endian::be16(p, 2) == size + inner.len());
    assert(endian::be16(p, 6) % 0x2000 == 0);
    assert(p.subrange(size, p.len() as int) =~= part);
    if n >= 8 {
        assert(inner.subrange(4, 6) =~= endian::be16_bytes((8 + d.payload.len()) as u16));
        endian::lemma_round_trip_16(inner, 4, (8 + d.payload.len()) as u16);
        assert(endian::be16(part, 0) == endian::be16(inner, 0));
        assert(endian::be16(part, 2) == endian::be16(inner, 2));
        assert(endian::be16(part, 4) == endian::be16(inner, 4));
        assert(part.subrange(8, n) =~= d.payload.take(n - 8));
    }
}

/// A length that is too small to be one is not taken for one: neither that of the packet, nor
/// that of the datagram. The datagram then goes to the end of the packet.
pub proof fn law_lengths_that_are_too_small_do_not_count(
    header: Seq<u8>,
    d: Datagram,
    checksum: Seq<u8>,
    low: u8,
)
    requires
        d.payload.len() <= 0xFFFF,
        checksum.len() == 2,
        20 <= header.len() <= 60,
        header[0] as int == 4 * 16 + header.len() / 4,
        header.len() % 4 == 0,
        header[2] == 0,
        header[3] < header.len(),
        header[6] % 32 == 0,
        header[7] == 0,
        header[9] == 17,
        low < 8,
    ensures
        udp_in(
            header + endian::be16_bytes(d.source_port) + endian::be16_bytes(d.destination_port)
                + seq![0u8, low] + checksum + d.payload,
        ) == Some(d),
{
    let inner = endian::be16_bytes(d.source_port) + endian::be16_bytes(d.destination_port) + seq![
        0u8,
        low,
    ] + checksum + d.payload;
    let p = header + endian::be16_bytes(d.source_port) + endian::be16_bytes(d.destination_port)
        + seq![0u8, low] + checksum + d.payload;
    let size = header.len() as int;
    assert(p =~= header + inner);
    assert(p[0] == header[0] && p[2] == header[2] && p[3] == header[3]);
    assert(p[6] == header[6] && p[7] == header[7] && p[9] == header[9]);
    assert((p[0] % 16) * 4 == size);
    assert(endian::be16(p, 2) < size);
    assert(endian::be16(p, 6) % 0x2000 == 0);
    assert(p.subrange(size, p.len() as int) =~= inner);
    assert(inner.subrange(0, 2) =~= endian::be16_bytes(d.source_port));
    assert(inner.subrange(2, 4) =~= endian::be16_bytes(d.destination_port));
    endian::lemma_round_trip_16(inner, 0, d.source_port);
    endian::lemma_round_trip_16(inner, 2, d.destination_port);
    assert(inner[4] == 0 && inner[5] == low);
    assert(inner.subrange(8, inner.len() as int) =~= d.payload);
}

/// The same holds of an IPv6 packet.
pub proof fn law_a_cut_ipv6_packet_gives_what_is_there(
    header: Seq<u8>,
    d: Datagram,
    checksum: Seq<u8>,
    n: int,
)
    requires
        can_be_sent(d, checksum),
        is_ipv6_header(header, 17, udp_bytes(d, checksum).len()),
        0 <= n <= udp_bytes(d, checksum).len(),
    ensures
        n >= 8 ==> udp_in(header + udp_bytes(d, checksum).take(n)) == Some(
            Datagram { payload: d.payload.take(n - 8), ..d },
        ),
        n < 8 ==> udp_in(header + udp_bytes(d, checksum).take(n)) is None,
{
    lemma_datagram_read(d, checksum);
    let inner = udp_bytes(d, checksum);
    let part = inner.take(n);
    let p = header + part;
    assert(p[0] == header[0] && p[4] == header[4] && p[5] == header[5] && p[6] == header[6]);
    assert(endian::be16(p, 4) == inner.len());
    assert(p.subrange(40, p.len() as int) =~= part);
    if n >= 8 {
        assert(inner.subrange(4, 6) =~= endian::be16_bytes((8 + d.payload.len()) as u16));
        endian::lemma_round_trip_16(inner, 4, (8 + d.payload.len()) as u16);
        assert(endian::be16(part, 0) == endian::be16(inner, 0));
        assert(endian::be16(part, 2) == endian::be16(inner, 2));
        assert(endian::be16(part, 4) == endian::be16(inner, 4));
        assert(part.subrange(8, n) =~= d.payload.take(n - 8));
    }
}

} // verus!
