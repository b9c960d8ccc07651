//! Captured packets, and recordings of them.
//!
//! A recording is written as
//! `{"packets":[{"direction":0,"timestamp":1758300000,"data":[1,2,3]}]}`. A direction is read
//! as a number or as a word.
use crate::json;
use crate::json::FieldText;
use crate::kcp::Direction;
use crate::text;
use vstd::prelude::*;

verus! {

/// One captured datagram.
#[derive(Debug, PartialEq, Eq)]
pub struct Packet {
    pub direction: Direction,
    /// Unix time in seconds.
    pub timestamp: i64,
    /// The UDP payload.
    pub data: Vec<u8>,
}

/// What a [`Packet`] holds.
pub struct PacketView {
    pub direction: Direction,
    pub timestamp: i64,
    pub data: Seq<u8>,
}

impl View for Packet {
    type V = PacketView;

    open spec fn view(&self) -> PacketView {
        PacketView { direction: self.direction, timestamp: self.timestamp, data: self.data@ }
    }
}

impl Clone for Packet {
    fn clone(&self) -> (r: Packet)
        ensures
            r@ == self@,
    {
        Packet {
            direction: self.direction,
            timestamp: self.timestamp,
            data: vstd::slice::slice_to_vec(self.data.as_slice()),
        }
    }
}

/// One recorded datagram.
#[derive(Debug, PartialEq, Eq)]
pub struct DumpPacket {
    /// 1 for outgoing; anything else for incoming.
    pub direction: u8,
    /// Unix time in seconds.
    pub timestamp: i64,
    /// The UDP payload.
    pub data: Vec<u8>,
}

/// What a [`DumpPacket`] holds.
pub struct DumpPacketView {
    pub direction: u8,
    pub timestamp: i64,
    pub data: Seq<u8>,
}

impl View for DumpPacket {
    type V = DumpPacketView;

    open spec fn view(&self) -> DumpPacketView {
        DumpPacketView { direction: self.direction, timestamp: self.timestamp, data: self.data@ }
    }
}

impl Clone for DumpPacket {
    fn clone(&self) -> (r: DumpPacket)
        ensures
            r@ == self@,
    {
        DumpPacket {
            direction: self.direction,
            timestamp: self.timestamp,
            data: vstd::slice::slice_to_vec(self.data.as_slice()),
        }
    }
}

/// The direction that a number stands for.
pub open spec fn direction_of(code: u8) -> Direction {
    if code == 1 {
        Direction::Outgoing
    } else {
        Direction::Incoming
    }
}

/// The number that stands for a direction.
pub open spec fn code_of(direction: Direction) -> u8 {
    match direction {
        Direction::Outgoing => 1,
        Direction::Incoming => 0,
    }
}

/// A packet as it is recorded.
pub open spec fn recorded(packet: PacketView) -> DumpPacketView {
    DumpPacketView {
        direction: code_of(packet.direction),
        timestamp: packet.timestamp,
        data: packet.data,
    }
}

/// A recorded packet as it was captured.
pub open spec fn replayed(packet: DumpPacketView) -> PacketView {
    PacketView {
        direction: direction_of(packet.direction),
        timestamp: packet.timestamp,
        data: packet.data,
    }
}

impl DumpPacket {
    pub fn direction(&self) -> (r: Direction)
        ensures
            r == direction_of(self.direction),
    {
        if self.direction == 1 {
            Direction::Outgoing
        } else {
            Direction::Incoming
        }
    }
}

/// A direction as it stands in a recording.
#[derive(Debug)]
pub enum DirectionToken {
    /// A number, if it is one without sign and fraction.
    Number(Option<u64>),
    /// A word.
    Name(String),
    /// Another JSON value, as it is written.
    Other(String),
}

/// Why a direction cannot be read.
#[derive(Debug, PartialEq, Eq)]
pub enum DirectionError {
    /// A number that is no unsigned integer.
    NotAnInteger,
    /// A word other than the two, in lower case.
    UnknownName(String),
    /// Neither number nor word.
    NotADirection(String),
}

impl DirectionError {
    /// What went wrong, in words.
    pub open spec fn text(self) -> Seq<char> {
        match self {
            DirectionError::NotAnInteger => "direction is not an integer"@,
            DirectionError::UnknownName(name) => "unknown direction "@ + text::quoted_text(name@),
            DirectionError::NotADirection(value) =>
                "direction must be a number or a name, got "@ + value@,
        }
    }

    pub fn to_string(&self) -> (r: String)
        ensures
            r@ == self.text(),
    {
        match self {
            DirectionError::NotAnInteger => "direction is not an integer".to_owned(),
            DirectionError::UnknownName(name) => {
                let mut out: String = "unknown direction ".to_owned();
                out.push_str(text::quoted(name.as_str()).as_str());
                out
            },
            DirectionError::NotADirection(value) => {
                let mut out: String = "direction must be a number or a name, got ".to_owned();
                out.push_str(value.as_str());
                out
            },
        }
    }
}

/// The number of the direction that a word names, in whatever case.
pub open spec fn word_code(word: Seq<char>) -> Option<u8> {
    if text::lower(word) == "incoming"@ {
        Some(0)
    } else if text::lower(word) == "outgoing"@ {
        Some(1)
    } else {
        None
    }
}

impl DirectionToken {
    /// The number of a direction. A number is cut to eight bits; a word is read in any case.
    pub fn code(&self) -> (r: Result<u8, DirectionError>)
        ensures
            match *self {
                DirectionToken::Number(Some(n)) => r == Ok::<u8, DirectionError>((n % 256) as u8),
                DirectionToken::Number(None) => r == Err::<u8, DirectionError>(
                    DirectionError::NotAnInteger,
                ),
                DirectionToken::Name(name) => {
                    let word = text::lower(name@);
                    if word == "incoming"@ {
                        r == Ok::<u8, DirectionError>(0)
                    } else if word == "outgoing"@ {
                        r == Ok::<u8, DirectionError>(1)
                    } else {
                        match r {
                            Err(DirectionError::UnknownName(w)) => w@ == word,
                            _ => false,
                        }
                    }
                },
                DirectionToken::Other(value) => match r {
                    Err(DirectionError::NotADirection(v)) => v@ == value@,
                    _ => false,
                },
            },
            *self matches DirectionToken::Name(name) ==> match word_code(name@) {
                Some(code) => r == Ok::<u8, DirectionError>(code),
                None => r is Err,
            },
    {
        match self {
            DirectionToken::Number(Some(n)) => Ok((*n % 256) as u8),
            DirectionToken::Number(None) => Err(DirectionError::NotAnInteger),
            DirectionToken::Name(name) => {
                let word: String = text::to_lower(name.as_str());
                if text::same(word.as_str(), "incoming") {
                    Ok(0)
                } else if text::same(word.as_str(), "outgoing") {
                    Ok(1)
                } else {
                    Err(DirectionError::UnknownName(word))
                }
            },
            DirectionToken::Other(value) => Err(DirectionError::NotADirection(value.clone())),
        }
    }
}

/// A recording.
#[derive(Debug, PartialEq, Eq)]
pub struct Dump {
    pub packets: Vec<DumpPacket>,
}

pub open spec fn dump_view(packets: Seq<DumpPacket>) -> Seq<DumpPacketView> {
    packets.map_values(|p: DumpPacket| p@)
}

pub open spec fn packets_view(packets: Seq<Packet>) -> Seq<PacketView> {
    packets.map_values(|p: Packet| p@)
}

impl View for Dump {
    type V = Seq<DumpPacketView>;

    open spec fn view(&self) -> Seq<DumpPacketView> {
        dump_view(self.packets@)
    }
}

/// How many payload bytes there are. The sum wraps.
pub open spec fn payload_total(packets: Seq<DumpPacketView>) -> usize
    decreases packets.len(),
{
    if packets.len() == 0 {
        0
    } else {
        payload_total(packets.drop_last()).wrapping_add(packets.last().data.len() as usize)
    }
}

/// A recording as it is captured again.
pub open spec fn replay(packets: Seq<DumpPacketView>) -> Seq<PacketView> {
    packets.map_values(|p: DumpPacketView| replayed(p))
}

/// A byte string as a JSON array.
pub open spec fn bytes_json(bytes: Seq<u8>) -> Seq<char> {
    json::array_text(bytes.map_values(|b: u8| text::decimal(b as nat)))
}

/// The fields of a recorded packet.
pub open spec fn packet_fields(p: DumpPacketView) -> Seq<FieldText> {
    seq![
        json::field("direction"@, text::decimal(p.direction as nat)),
        json::field("timestamp"@, text::decimal_int(p.timestamp as int)),
        json::field("data"@, bytes_json(p.data)),
    ]
}

/// A recorded packet as JSON.
pub open spec fn packet_json(p: DumpPacketView) -> Seq<char> {
    json::object_text(packet_fields(p))
}

/// A recording as JSON.
pub open spec fn dump_json(packets: Seq<DumpPacketView>) -> Seq<char> {
    json::object_text(
        seq![
            json::field(
                "packets"@,
                json::array_text(packets.map_values(|p: DumpPacketView| packet_json(p))),
            ),
        ],
    )
}

impl Clone for Dump {
    fn clone(&self) -> (r: Dump)
        ensures
            r@ == self@,
    {
        let mut packets: Vec<DumpPacket> = Vec::new();
        let mut i: usize = 0;
        while i < self.packets.len()
            invariant
                i <= self.packets@.len(),
                packets@.len() == i,
                forall|k: int| 0 <= k < i ==> (#[trigger] packets@[k])@ == self.packets@[k]@,
            decreases self.packets@.len() - i,
        {
            packets.push(self.packets[i].clone());
            i = i + 1;
        }
        assert(dump_view(packets@) =~= dump_view(self.packets@));
        Dump { packets }
    }
}

impl Default for Dump {
    fn default() -> (r: Dump)
        ensures
            r@ == Seq::<DumpPacketView>::empty(),
    {
        Dump::new()
    }
}

impl DumpPacket {
    fn to_json(&self) -> (r: String)
        ensures
            r@ == packet_json(self@),
    {
        let mut bytes: Vec<String> = Vec::new();
        let mut i: usize = 0;
        while i < self.data.len()
            invariant
                i <= self.data@.len(),
                bytes@.len() == i,
                forall|k: int|
                    0 <= k < i ==> (#[trigger] bytes@[k])@ == text::decimal(self.data@[k] as nat),
            decreases self.data@.len() - i,
        {
            bytes.push(json::number(self.data[i]));
            i = i + 1;
        }
        assert(text::texts(bytes@) =~= self.data@.map_values(|b: u8| text::decimal(b as nat)));
        let fields: [(&str, Option<String>); 3] = [
            ("direction", Some(json::number(self.direction))),
            ("timestamp", Some(json::number(self.timestamp))),
            ("data", Some(json::array(bytes.as_slice()))),
        ];
        assert(json::fields_text(fields@) =~= packet_fields(self@));
        json::object(fields.as_slice())
    }
}

impl Dump {
    pub fn new() -> (r: Dump)
        ensures
            r@ == Seq::<DumpPacketView>::empty(),
    {
        let r = Dump { packets: Vec::new() };
        assert(r@ =~= Seq::empty());
        r
    }

    pub fn len(&self) -> (r: usize)
        ensures
            r == self@.len(),
    {
        self.packets.len()
    }

    pub fn is_empty(&self) -> (r: bool)
        ensures
            r == (self@.len() == 0),
    {
        self.packets.len() == 0
    }

    /// Records a packet.
    pub fn push(&mut self, packet: &Packet)
        ensures
            final(self)@ == old(self)@.push(recorded(packet@)),
    {
        let code: u8 = match packet.direction {
            Direction::Outgoing => 1,
            Direction::Incoming => 0,
        };
        let entry = DumpPacket {
            direction: code,
            timestamp: packet.timestamp,
            data: vstd::slice::slice_to_vec(packet.data.as_slice()),
        };
        let ghost before = self@;
        self.packets.push(entry);
        assert(self@ =~= before.push(recorded(packet@)));
    }

    pub fn payload_bytes(&self) -> (r: usize)
        ensures
            r == payload_total(self@),
    {
        let mut total: usize = 0;
        let mut i: usize = 0;
        assert(self@.take(0) =~= Seq::empty());
        while i < self.packets.len()
            invariant
                i <= self.packets@.len(),
                total == payload_total(self@.take(i as int)),
            decreases self.packets@.len() - i,
        {
            assert(self@[i as int] == self.packets@[i as int]@);
            assert(self@.take(i + 1).drop_last() =~= self@.take(i as int));
            assert(self@.take(i + 1).last() == self@[i as int]);
            total = total.wrapping_add(self.packets[i].data.len());
            i = i + 1;
        }
        assert(self@.take(i as int) =~= self@);
        total
    }

    /// The packets, in the order they were captured.
    pub fn iter_packets(&self) -> (r: Vec<Packet>)
        ensures
            packets_view(r@) == replay(self@),
    {
        let mut out: Vec<Packet> = Vec::new();
        let mut i: usize = 0;
        while i < self.packets.len()
            invariant
                i <= self.packets@.len(),
                out@.len() == i,
                forall|k: int| 0 <= k < i ==> (#[trigger] out@[k])@ == replayed(self.packets@[k]@),
            decreases self.packets@.len() - i,
        {
            let p: &DumpPacket = &self.packets[i];
            out.push(
                Packet {
                    direction: p.direction(),
                    timestamp: p.timestamp,
                    data: vstd::slice::slice_to_vec(p.data.as_slice()),
                },
            );
            i = i + 1;
        }
        assert(packets_view(out@) =~= replay(self@));
        out
    }

    pub fn to_json(&self) -> (r: String)
        ensures
            r@ == dump_json(self@),
    {
        let mut items: Vec<String> = Vec::new();
        let mut i: usize = 0;
        while i < self.packets.len()
            invariant
                i <= self.packets@.len(),
                items@.len() == i,
                forall|k: int|
                    0 <= k < i ==> (#[trigger] items@[k])@ == packet_json(self.packets@[k]@),
            decreases self.packets@.len() - i,
        {
            items.push(self.packets[i].to_json());
            i = i + 1;
        }
        assert(text::texts(items@) =~= self@.map_values(|p: DumpPacketView| packet_json(p)));
        let fields: [(&str, Option<String>); 1] = [("packets", Some(json::array(items.as_slice())))];
        assert(json::fields_text(fields@) =~= seq![
            json::field(
                "packets"@,
                json::array_text(self@.map_values(|p: DumpPacketView| packet_json(p))),
            ),
        ]);
        json::object(fields.as_slice())
    }
}

/// What was recorded is replayed unchanged.
pub proof fn law_replay_undoes_recording(packet: PacketView)
    ensures
        replayed(recorded(packet)) == packet,
{
}

/// An outgoing packet is recorded as 1, an incoming one as 0, with its time and its bytes; only 1
/// is replayed as outgoing.
pub proof fn law_directions_are_recorded_as_numbers(packet: PacketView, recording: DumpPacketView)
    ensures
        packet.direction is Outgoing ==> recorded(packet).direction == 1,
        packet.direction is Incoming ==> recorded(packet).direction == 0,
        recorded(packet).timestamp == packet.timestamp,
        recorded(packet).data == packet.data,
        replayed(recording).direction is Outgoing <==> recording.direction == 1,
        replayed(recording).timestamp == recording.timestamp,
        replayed(recording).data == recording.data,
{
}

/// A recording is replayed packet by packet, in order.
pub proof fn law_a_recording_is_replayed_in_order(packets: Seq<PacketView>)
    ensures
        replay(packets.map_values(|p: PacketView| recorded(p))) == packets,
{
    let recording = packets.map_values(|p: PacketView| recorded(p));
    assert forall|i: int| 0 <= i < packets.len() implies replay(recording)[i] == packets[i] by {
        law_replay_undoes_recording(packets[i]);
    }
    assert(replay(recording) =~= packets);
}

/// The payload bytes of all packets are counted.
pub proof fn law_payloads_are_counted(
    first: Seq<DumpPacketView>,
    then: Seq<DumpPacketView>,
    packet: DumpPacketView,
)
    requires
        packet.data.len() <= usize::MAX,
    ensures
        payload_total(first + then) == payload_total(first).wrapping_add(payload_total(then)),
        payload_total(seq![packet]) == packet.data.len(),
    decreases then.len(),
{
    reveal_with_fuel(payload_total, 2);
    assert(seq![packet].drop_last() =~= Seq::empty());
    if then.len() == 0 {
        assert(first + then =~= first);
    } else {
        law_payloads_are_counted(first, then.drop_last(), packet);
        assert((first + then).drop_last() =~= first + then.drop_last());
        assert((first + then).last() == then.last());
    }
}

/// A recorded packet is written with its direction and its time as numbers and its bytes as an
/// array of numbers.
pub proof fn law_a_packet_is_written(p: DumpPacketView)
    ensures
        json::has_member(packet_json(p), "direction"@, text::decimal(p.direction as nat)),
        json::has_member(packet_json(p), "timestamp"@, text::decimal_int(p.timestamp as int)),
        json::has_member(packet_json(p), "data"@, bytes_json(p.data)),
{
    let fields = packet_fields(p);
    json::law_fields_are_written(fields, 0);
    json::law_fields_are_written(fields, 1);
    json::law_fields_are_written(fields, 2);
}

/// A recording is written as an object with the list of its packets.
pub proof fn law_a_recording_is_written(packets: Seq<DumpPacketView>, packet: DumpPacketView)
    ensures
        json::has_member(
            dump_json(packets),
            "packets"@,
            json::array_text(packets.map_values(|p: DumpPacketView| packet_json(p))),
        ),
        packets.len() > 0 ==> json::array_text(
            packets.push(packet).map_values(|p: DumpPacketView| packet_json(p)),
        ) == json::array_text(
            packets.map_values(|p: DumpPacketView| packet_json(p)),
        ).drop_last() + seq![','] + packet_json(packet) + seq![']'],
        bytes_json(Seq::empty()) == seq!['[', ']'],
{
    let items = packets.map_values(|p: DumpPacketView| packet_json(p));
    json::law_fields_are_written(seq![json::field("packets"@, json::array_text(items))], 0);
    json::law_arrays_are_written_in_order(items, packet_json(packet));
    assert(packets.push(packet).map_values(|p: DumpPacketView| packet_json(p)) =~= items.push(
        packet_json(packet),
    ));
    assert(Seq::<u8>::empty().map_values(|b: u8| text::decimal(b as nat)) =~= Seq::<
        Seq<char>,
    >::empty());
}

/// The word for a direction is read back in any case: its number is the one that the direction
/// is recorded as.
pub proof fn law_words_name_the_directions(word: Seq<char>)
    ensures
        text::lower(word) == "incoming"@ ==> word_code(word) == Some(
            code_of(Direction::Incoming),
        ),
        text::lower(word) == "outgoing"@ ==> word_code(word) == Some(
            code_of(Direction::Outgoing),
        ),
        text::lower(word) != "incoming"@ && text::lower(word) != "outgoing"@ ==> word_code(
            word,
        ) is None,
{
    reveal_strlit("incoming");
    reveal_strlit("outgoing");
    assert("incoming"@[0] != "outgoing"@[0]);
}

} // verus!
