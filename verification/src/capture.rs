//! What a live capture decides about the packets a driver hands over, and what its errors
//! mean.
use crate::dump::{Packet, PacketView};
use crate::kcp::Direction;
use crate::packet;
use crate::text;
use vstd::prelude::*;

verus! {

/// The UDP port of the game's sessions.
pub const GAME_PORT: u16 = 20501;

/// The size of the address that the driver fills in beside each packet: a timestamp of eight
/// bytes, a word of flags, a reserved word, and a union of 64 bytes.
pub const ADDRESS_SIZE: usize = 80;

/// Where the word of flags starts.
pub const ADDRESS_FLAGS_OFFSET: usize = 8;

/// The flag for outbound packets is bit 17 of the word: bit 1 of its third byte.
pub const ADDRESS_OUTBOUND_OFFSET: usize = 10;

pub const ADDRESS_OUTBOUND_MASK: u8 = 0x02;

/// The largest packet the driver can hand over.
pub const MAX_PACKET_SIZE: usize = 0xFFFF;

pub const ERROR_INSUFFICIENT_BUFFER: u32 = 122;

pub const ERROR_NO_MORE_ITEMS: u32 = 259;

pub const ERROR_OPERATION_ABORTED: u32 = 995;

/// Why a capture cannot go on.
#[derive(Debug, Clone, PartialEq, Eq)]
pub enum CaptureError {
    /// The driver's library was not found.
    DllMissing,
    /// The library lacks a function.
    MissingFunction(&'static str),
    /// The driver could not be opened.
    OpenFailed { filter: String, code: u32 },
    /// A packet could not be received.
    RecvFailed(u32),
    /// A packet is larger than the buffer for it.
    BufferTooSmall,
    Unsupported(&'static str),
}

/// What to do about an error, where its cause is plain.
pub open spec fn hint_for(error: CaptureError) -> Option<Seq<char>> {
    match error {
        CaptureError::OpenFailed { filter, code } => if code == 5 {
            Some(
                "access denied: WinDivert has to load a kernel driver, so run this from an elevated terminal"@,
            )
        } else if code == 577 || code == 1275 {
            Some(
                "the WinDivert driver could not be loaded; check WinDivert64.sys sits next to the executable and that driver signature enforcement has not been changed"@,
            )
        } else {
            None
        },
        CaptureError::DllMissing => Some(
            "build with `cargo build -p zzz-cli` so the build script copies WinDivert.dll into the target directory"@,
        ),
        _ => None,
    }
}

impl CaptureError {
    pub fn hint(&self) -> (r: Option<&'static str>)
        ensures
            match r {
                Some(hint) => hint_for(*self) == Some(hint@),
                None => hint_for(*self) is None,
            },
    {
        match self {
            CaptureError::OpenFailed { filter: _, code } => match *code {
                5 => Some(
                    "access denied: WinDivert has to load a kernel driver, so run this from an elevated terminal",
                ),
                577 | 1275 => Some(
                    "the WinDivert driver could not be loaded; check WinDivert64.sys sits next to the executable and that driver signature enforcement has not been changed",
                ),
                _ => None,
            },
            CaptureError::DllMissing => Some(
                "build with `cargo build -p zzz-cli` so the build script copies WinDivert.dll into the target directory",
            ),
            _ => None,
        }
    }

    /// What went wrong, in words.
    pub open spec fn text(self) -> Seq<char> {
        match self {
            CaptureError::DllMissing => "WinDivert.dll not found"@,
            CaptureError::MissingFunction(name) => "WinDivert.dll does not export "@ + name@,
            CaptureError::OpenFailed { filter, code } => "WinDivertOpen("@ + text::quoted_text(
                filter@,
            ) + ") failed with Win32 error "@ + text::decimal(code as nat),
            CaptureError::RecvFailed(code) => "WinDivertRecv failed with Win32 error "@
                + text::decimal(code as nat),
            CaptureError::BufferTooSmall => "captured packet did not fit in the buffer"@,
            CaptureError::Unsupported(what) => "unsupported: "@ + what@,
        }
    }

    pub fn to_string(&self) -> (r: String)
        ensures
            r@ == self.text(),
    {
        match self {
            CaptureError::DllMissing => "WinDivert.dll not found".to_owned(),
            CaptureError::MissingFunction(name) => {
                let mut out: String = "WinDivert.dll does not export ".to_owned();
                out.push_str(name);
                out
            },
            CaptureError::OpenFailed { filter, code } => {
                let mut out: String = "WinDivertOpen(".to_owned();
                out.push_str(text::quoted(filter.as_str()).as_str());
                out.push_str(") failed with Win32 error ");
                text::push_decimal(&mut out, *code as u64);
                out
            },
            CaptureError::RecvFailed(code) => text::with_number(
                "WinDivertRecv failed with Win32 error ",
                *code as u64,
            ),
            CaptureError::BufferTooSmall => "captured packet did not fit in the buffer".to_owned(),
            CaptureError::Unsupported(what) => {
                let mut out: String = "unsupported: ".to_owned();
                out.push_str(what);
                out
            },
        }
    }

    /// The error, and below it what to do about it.
    pub open spec fn described(self) -> Seq<char> {
        match hint_for(self) {
            Some(hint) => self.text() + "\n       "@ + hint,
            None => self.text(),
        }
    }

    pub fn describe(&self) -> (r: String)
        ensures
            r@ == self.described(),
    {
        let mut out: String = self.to_string();
        if let Some(hint) = self.hint() {
            out.push_str("\n       ");
            out.push_str(hint);
        }
        out
    }
}

/// The driver's filter for a port.
pub open spec fn filter_for(port: u16) -> Seq<char> {
    "udp.DstPort == "@ + text::decimal(port as nat) + " or udp.SrcPort == "@ + text::decimal(
        port as nat,
    )
}

pub fn port_filter(port: u16) -> (r: String)
    ensures
        r@ == filter_for(port),
{
    let mut out: String = text::with_number("udp.DstPort == ", port as u64);
    out.push_str(" or udp.SrcPort == ");
    text::push_decimal(&mut out, port as u64);
    out
}

/// Whether the driver says that a packet left the machine. An address that is too short says
/// no.
pub open spec fn outbound(address: Seq<u8>) -> bool {
    address.len() > ADDRESS_OUTBOUND_OFFSET && address[ADDRESS_OUTBOUND_OFFSET as int]
        & ADDRESS_OUTBOUND_MASK != 0
}

pub fn address_is_outbound(address: &[u8]) -> (r: bool)
    ensures
        r == outbound(address@),
{
    address.len() > ADDRESS_OUTBOUND_OFFSET && address[ADDRESS_OUTBOUND_OFFSET]
        & ADDRESS_OUTBOUND_MASK != 0
}

/// The bit depends on the one byte alone that holds it.
pub proof fn law_outbound_reads_one_bit(flags: u8, address: Seq<u8>)
    requires
        address.len() > ADDRESS_OUTBOUND_OFFSET,
        address[ADDRESS_OUTBOUND_OFFSET as int] == flags,
    ensures
        outbound(address) == ((flags / 2) % 2 == 1),
{
    assert((flags & 0x02 != 0) == ((flags / 2) % 2 == 1)) by (bit_vector);
}

/// What a receive call that failed with a code means; none where the capture has ended.
pub open spec fn failure_of(code: u32) -> Option<CaptureError> {
    if code == ERROR_NO_MORE_ITEMS || code == ERROR_OPERATION_ABORTED {
        None
    } else if code == ERROR_INSUFFICIENT_BUFFER {
        Some(CaptureError::BufferTooSmall)
    } else {
        Some(CaptureError::RecvFailed(code))
    }
}

/// What a receive call that failed with a code means: the capture has ended, or it has gone
/// wrong.
pub fn receive_failure(code: u32) -> (r: Option<CaptureError>)
    ensures
        r == if code == ERROR_NO_MORE_ITEMS || code == ERROR_OPERATION_ABORTED {
            None
        } else if code == ERROR_INSUFFICIENT_BUFFER {
            Some(CaptureError::BufferTooSmall)
        } else {
            Some(CaptureError::RecvFailed(code))
        },
        r == failure_of(code),
{
    if code == ERROR_NO_MORE_ITEMS || code == ERROR_OPERATION_ABORTED {
        None
    } else if code == ERROR_INSUFFICIENT_BUFFER {
        Some(CaptureError::BufferTooSmall)
    } else {
        Some(CaptureError::RecvFailed(code))
    }
}

/// What a capture has seen. The counters wrap.
#[derive(Debug, Clone, Copy, PartialEq, Eq, Structural)]
pub struct CaptureCounts {
    /// Datagrams that were delivered.
    pub packets: u64,
    /// Packets that were not usable.
    pub skipped: u64,
    /// Datagrams where the port and the driver disagree about the direction.
    pub direction_conflicts: u64,
}

/// Nothing was seen.
pub open spec fn no_counts() -> CaptureCounts {
    CaptureCounts { packets: 0, skipped: 0, direction_conflicts: 0 }
}

impl Default for CaptureCounts {
    fn default() -> (r: CaptureCounts)
        ensures
            r == no_counts(),
    {
        CaptureCounts { packets: 0, skipped: 0, direction_conflicts: 0 }
    }
}

/// The game's datagram in a packet. The port decides the direction: what goes to the game's
/// port is outgoing.
pub open spec fn captured(bytes: Seq<u8>, port: u16, now: i64) -> Option<PacketView> {
    match packet::udp_in(bytes) {
        Some(udp) => if udp.source_port != port && udp.destination_port != port {
            None
        } else {
            Some(
                PacketView {
                    direction: if udp.destination_port == port {
                        Direction::Outgoing
                    } else {
                        Direction::Incoming
                    },
                    timestamp: now,
                    data: udp.payload,
                },
            )
        },
        None => None,
    }
}

/// The counters after a packet.
pub open spec fn counted(
    counts: CaptureCounts,
    bytes: Seq<u8>,
    address: Seq<u8>,
    port: u16,
    now: i64,
) -> CaptureCounts {
    match captured(bytes, port, now) {
        Some(packet) => CaptureCounts {
            packets: counts.packets.wrapping_add(1),
            direction_conflicts: if (packet.direction == Direction::Outgoing) != outbound(address) {
                counts.direction_conflicts.wrapping_add(1)
            } else {
                counts.direction_conflicts
            },
            ..counts
        },
        None => CaptureCounts { skipped: counts.skipped.wrapping_add(1), ..counts },
    }
}

impl CaptureCounts {
    /// Takes in a packet from the driver.
    pub fn take(&mut self, bytes: &[u8], address: &[u8], port: u16, unix_seconds: i64) -> (r: Option<
        Packet,
    >)
        ensures
            match r {
                Some(p) => captured(bytes@, port, unix_seconds) == Some(p@),
                None => captured(bytes@, port, unix_seconds) is None,
            },
            *final(self) == counted(*old(self), bytes@, address@, port, unix_seconds),
    {
        let udp = match packet::parse_udp(bytes) {
            Some(udp) => udp,
            None => {
                self.skipped = self.skipped.wrapping_add(1);
                return None;
            },
        };
        if udp.source_port != port && udp.destination_port != port {
            self.skipped = self.skipped.wrapping_add(1);
            return None;
        }
        let outgoing: bool = udp.destination_port == port;
        if outgoing != address_is_outbound(address) {
            self.direction_conflicts = self.direction_conflicts.wrapping_add(1);
        }
        self.packets = self.packets.wrapping_add(1);
        let direction: Direction = if outgoing {
            Direction::Outgoing
        } else {
            Direction::Incoming
        };
        Some(
            Packet {
                direction,
                timestamp: unix_seconds,
                data: vstd::slice::slice_to_vec(udp.payload),
            },
        )
    }
}

/// Every packet from the driver is delivered or skipped.
pub proof fn law_every_packet_is_counted(
    counts: CaptureCounts,
    bytes: Seq<u8>,
    address: Seq<u8>,
    port: u16,
    now: i64,
)
    requires
        counts.packets < u64::MAX,
        counts.skipped < u64::MAX,
    ensures
        ({
            let after = counted(counts, bytes, address, port, now);
            after.packets + after.skipped == counts.packets + counts.skipped + 1
        }),
{
}

/// The driver marks what leaves the machine in the second bit of the eleventh byte of the
/// address.
pub proof fn law_the_driver_marks_outbound_packets(address: Seq<u8>)
    ensures
        outbound(address) <==> address.len() > 10 && (address[10] / 2) % 2 == 1,
{
    if address.len() > 10 {
        law_outbound_reads_one_bit(address[10], address);
    }
}

/// Of a datagram the port decides: to the game's port it is outgoing, from it incoming, and any
/// other is skipped. The payload is taken over as it is, with the time.
pub proof fn law_the_port_decides(bytes: Seq<u8>, udp: packet::Datagram, port: u16, now: i64)
    requires
        packet::udp_in(bytes) == Some(udp),
    ensures
        udp.destination_port == port ==> captured(bytes, port, now) == Some(
            PacketView { direction: Direction::Outgoing, timestamp: now, data: udp.payload },
        ),
        udp.source_port == port && udp.destination_port != port ==> captured(bytes, port, now)
            == Some(
            PacketView { direction: Direction::Incoming, timestamp: now, data: udp.payload },
        ),
        udp.source_port != port && udp.destination_port != port ==> captured(bytes, port, now) is None,
{
}

/// A packet that holds no datagram of the game is skipped and counted as that; one that does is
/// counted as delivered, and as a conflict where the driver says otherwise of its direction.
pub proof fn law_packets_are_counted_as_what_they_are(
    counts: CaptureCounts,
    bytes: Seq<u8>,
    address: Seq<u8>,
    port: u16,
    now: i64,
)
    ensures
        ({
            let after = counted(counts, bytes, address, port, now);
            let marked = address.len() > 10 && (address[10] / 2) % 2 == 1;
            match captured(bytes, port, now) {
                Some(taken) => {
                    &&& after.packets == counts.packets.wrapping_add(1)
                    &&& after.skipped == counts.skipped
                    &&& taken.direction is Outgoing && marked ==> after.direction_conflicts
                        == counts.direction_conflicts
                    &&& taken.direction is Incoming && !marked ==> after.direction_conflicts
                        == counts.direction_conflicts
                    &&& taken.direction is Outgoing && !marked ==> after.direction_conflicts
                        == counts.direction_conflicts.wrapping_add(1)
                    &&& taken.direction is Incoming && marked ==> after.direction_conflicts
                        == counts.direction_conflicts.wrapping_add(1)
                },
                None => {
                    &&& after.packets == counts.packets
                    &&& after.skipped == counts.skipped.wrapping_add(1)
                    &&& after.direction_conflicts == counts.direction_conflicts
                },
            }
        }),
{
    law_the_driver_marks_outbound_packets(address);
}

/// Only an error whose cause is plain has a hint: a missing library, a driver that was denied
/// (error 5), and one that was not signed or is blocked (errors 577 and 1275), and the last two
/// have the same.
pub proof fn law_which_errors_have_a_hint(error: CaptureError, filter: String)
    ensures
        hint_for(error) is Some <==> {
            ||| error is DllMissing
            ||| error is OpenFailed && (error->OpenFailed_code == 5 || error->OpenFailed_code == 577
                || error->OpenFailed_code == 1275)
        },
        hint_for(CaptureError::OpenFailed { filter, code: 577 }) == hint_for(
            CaptureError::OpenFailed { filter, code: 1275 },
        ),
{
}

/// The filter takes in what goes to the port and what comes from it.
pub proof fn law_the_filter_names_the_port_twice(port: u16)
    ensures
        filter_for(port) == "udp.DstPort == "@ + text::decimal(port as nat) + " or "@
            + "udp.SrcPort == "@ + text::decimal(port as nat),
{
    reveal_strlit(" or udp.SrcPort == ");
    reveal_strlit(" or ");
    reveal_strlit("udp.SrcPort == ");
    let n = text::decimal(port as nat);
    assert(filter_for(port) =~= "udp.DstPort == "@ + n + " or "@ + "udp.SrcPort == "@ + n);
}

/// A capture ends without an error where there is nothing more (error 259) or it was stopped
/// (error 995). A packet that is too large (error 122) is told as that, and any other error with
/// its code.
pub proof fn law_how_a_capture_ends(code: u32)
    ensures
        failure_of(code) is None <==> code == 259 || code == 995,
        failure_of(code) == Some(CaptureError::BufferTooSmall) <==> code == 122,
        code != 259 && code != 995 && code != 122 ==> failure_of(code) == Some(
            CaptureError::RecvFailed(code),
        ),
{
}

} // verus!
