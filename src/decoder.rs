use crate::timestamp::{minutes_of_civil, Timestamp, CIVIL_MINUTES_BOUND};
use vstd::prelude::*;

verus! {

/// The three bytes that open every meter log.
pub const MAGIC_0: u8 = 0xE0;
pub const MAGIC_1: u8 = 0xC5;
pub const MAGIC_2: u8 = 0xEA;

/// The byte that, four times in a row, ends the records of a log.
pub const END_BYTE: u8 = 0xFF;

/// Offset of the base timestamp, right after the magic marker.
pub const BASE_OFFSET: usize = 3;

/// Offset of the first power record, right after the base timestamp.
pub const FIRST_RECORD: usize = 8;

/// Size of the base timestamp and of each power record, in bytes.
pub const RECORD_LEN: usize = 5;

/// Why a log or a set of readings could not be processed.
#[derive(Clone, Copy, Debug, PartialEq, Eq, Structural)]
pub enum VoltcraftError {
    /// The buffer does not start with the magic marker.
    InvalidFormat,
    /// A fixed-width field, or the end marker, lies beyond the end of the buffer.
    Truncated,
    /// The base timestamp names a date or time that does not exist.
    InvalidTimestamp,
    /// Statistics were asked of an empty sequence of readings.
    EmptyInput,
}

/// One sampled instant of the meter.
///
/// Units are chosen so that every quantity is an exact integer: `voltage` in
/// tenths of a volt, `current` in milliamperes, `power_factor` in hundredths,
/// `power` in nanokilowatts (microwatts) and `apparent_power` in
/// nano-kilovolt-amperes (micro-volt-amperes).
#[derive(Clone, Copy, Debug, PartialEq, Eq, Structural)]
pub struct PowerEvent {
    pub timestamp: Timestamp,
    pub voltage: u16,
    pub current: u16,
    pub power_factor: u8,
    pub power: u64,
    pub apparent_power: u64,
}

/// The decoded fields of one power record: voltage, current, power factor,
/// active power and apparent power, in the units of `PowerEvent`.
pub type PowerFields = (u16, u16, u8, u64, u64);

/// Active power = voltage * current * power factor, apparent power =
/// voltage * current (both scaled to the units of `PowerEvent`).
pub open spec fn formulas_hold(e: PowerEvent) -> bool {
    &&& e.power as int == e.voltage as int * e.current as int * e.power_factor as int
    &&& e.apparent_power as int == e.voltage as int * e.current as int * 100
}

pub open spec fn be16(hi: u8, lo: u8) -> int {
    hi as int * 256 + lo as int
}

/// The buffer starts with the magic marker.
pub open spec fn header_ok(b: Seq<u8>) -> bool {
    b.len() >= 3 && b[0] == MAGIC_0 && b[1] == MAGIC_1 && b[2] == MAGIC_2
}

/// The four bytes at `off` lie in the buffer and form the end marker.
pub open spec fn is_end_at(b: Seq<u8>, off: int) -> bool {
    &&& 0 <= off
    &&& off + 4 <= b.len()
    &&& b[off] == END_BYTE && b[off + 1] == END_BYTE
    &&& b[off + 2] == END_BYTE && b[off + 3] == END_BYTE
}

/// The number of power records from `off` up to the end marker, or `None`
/// where the buffer ends before an end marker is met.
pub open spec fn record_count(b: Seq<u8>, off: int) -> Option<nat>
    decreases b.len() - off,
{
    if off < 0 || off + 4 > b.len() {
        None
    } else if is_end_at(b, off) {
        Some(0)
    } else if off + 5 > b.len() {
        None
    } else {
        match record_count(b, off + 5) {
            Some(n) => Some(n + 1),
            None => None,
        }
    }
}

/// The fields of the power record at `off` (which must lie in the buffer).
pub open spec fn power_fields_at(b: Seq<u8>, off: int) -> PowerFields {
    let v = be16(b[off], b[off + 1]);
    let c = be16(b[off + 2], b[off + 3]);
    let pf = b[off + 4] as int;
    (v as u16, c as u16, pf as u8, (v * c * pf) as u64, (v * c * 100) as u64)
}

/// What decoding the 5 bytes at `off` as a power record gives.
pub open spec fn power_at(b: Seq<u8>, off: int) -> Result<PowerFields, VoltcraftError> {
    if off + 5 > b.len() {
        Err(VoltcraftError::Truncated)
    } else {
        Ok(power_fields_at(b, off))
    }
}

/// The reading made of the power record at `off` and the timestamp `t`.
pub open spec fn event_at(b: Seq<u8>, off: int, t: Timestamp) -> PowerEvent {
    let f = power_fields_at(b, off);
    PowerEvent {
        timestamp: t,
        voltage: f.0,
        current: f.1,
        power_factor: f.2,
        power: f.3,
        apparent_power: f.4,
    }
}

/// The minute count of the timestamp record at `off`: month, day, year after
/// 2000, hour and minute, one byte each.
pub open spec fn civil_at(b: Seq<u8>, off: int) -> Option<int> {
    minutes_of_civil(
        b[off + 2] as int + 2000,
        b[off] as int,
        b[off + 1] as int,
        b[off + 3] as int,
        b[off + 4] as int,
    )
}

/// What decoding the 5 bytes at `off` as a timestamp record gives.
pub open spec fn timestamp_at(b: Seq<u8>, off: int) -> Result<Timestamp, VoltcraftError> {
    if off + 5 > b.len() {
        Err(VoltcraftError::Truncated)
    } else {
        match civil_at(b, off) {
            Some(m) => Ok(Timestamp { minutes: m as i64 }),
            None => Err(VoltcraftError::InvalidTimestamp),
        }
    }
}

/// The readings of a log whose records start at the first record offset, the
/// `i`-th one `i` minutes after `base`.
pub open spec fn readings(b: Seq<u8>, base: int, n: nat) -> Seq<PowerEvent> {
    Seq::new(n, |i: int| event_at(b, FIRST_RECORD as int + 5 * i, Timestamp { minutes: (base + i) as i64 }))
}

/// What parsing a whole log gives.
pub open spec fn parsed(b: Seq<u8>) -> Result<Seq<PowerEvent>, VoltcraftError> {
    if !header_ok(b) {
        Err(VoltcraftError::InvalidFormat)
    } else {
        match timestamp_at(b, BASE_OFFSET as int) {
            Err(e) => Err(e),
            Ok(t) => match record_count(b, FIRST_RECORD as int) {
                None => Err(VoltcraftError::Truncated),
                Some(n) => Ok(readings(b, t.minutes as int, n)),
            },
        }
    }
}

/// A valid log whose only content after a well-formed base timestamp is the
/// end marker decodes to no readings at all.
pub proof fn lemma_end_marker_only_gives_no_readings(b: Seq<u8>)
    requires
        header_ok(b),
        b.len() == FIRST_RECORD + 4,
        is_end_at(b, FIRST_RECORD as int),
        civil_at(b, BASE_OFFSET as int) is Some,
    ensures
        parsed(b) == Ok::<Seq<PowerEvent>, VoltcraftError>(Seq::empty()),
{
    let base = civil_at(b, BASE_OFFSET as int)->Some_0;
    assert(record_count(b, FIRST_RECORD as int) == Some(0nat));
    assert(readings(b, base as i64 as int, 0) =~= Seq::empty());
}

/// Every reading decoded from a record inside the buffer obeys the power
/// formulas.
proof fn lemma_event_formulas(b: Seq<u8>, off: int, t: Timestamp)
    requires
        0 <= off,
        off + 5 <= b.len(),
    ensures
        formulas_hold(event_at(b, off, t)),
{
    let v = be16(b[off], b[off + 1]);
    let c = be16(b[off + 2], b[off + 3]);
    let pf = b[off + 4] as int;
    assert(0 <= v * c <= 0xFFFF * 0xFFFF) by (nonlinear_arith)
        requires 0 <= v <= 0xFFFF, 0 <= c <= 0xFFFF;
    assert(0 <= v * c * pf <= 0xFFFF * 0xFFFF * 0xFF) by (nonlinear_arith)
        requires 0 <= v * c <= 0xFFFF * 0xFFFF, 0 <= pf <= 0xFF;
}

/// A raw meter log, held as bytes; its content is checked only by `parse`.
pub struct VoltcraftData {
    raw_data: Vec<u8>,
}

impl View for VoltcraftData {
    type V = Seq<u8>;

    closed spec fn view(&self) -> Seq<u8> {
        self.raw_data@
    }
}

impl VoltcraftData {
    pub fn from_raw(raw_data: Vec<u8>) -> (r: VoltcraftData)
        ensures
            r@ == raw_data@,
    {
        VoltcraftData { raw_data }
    }

    /// Whether the buffer starts with the magic marker; a shorter buffer is
    /// not valid.
    pub fn is_valid(&self) -> (r: bool)
        ensures
            r == header_ok(self@),
    {
        self.raw_data.len() >= 3 && self.raw_data[0] == MAGIC_0 && self.raw_data[1] == MAGIC_1
            && self.raw_data[2] == MAGIC_2
    }

    /// Whether the end marker stands at `off`; false where it would run past
    /// the end of the buffer.
    pub fn is_endofdata(&self, off: usize) -> (r: bool)
        ensures
            r == is_end_at(self@, off as int),
    {
        let len = self.raw_data.len();
        if off > len || len - off < 4 {
            false
        } else {
            self.raw_data[off] == END_BYTE && self.raw_data[off + 1] == END_BYTE
                && self.raw_data[off + 2] == END_BYTE && self.raw_data[off + 3] == END_BYTE
        }
    }

    /// Decodes the timestamp record at `off` into a local wall-clock time.
    pub fn decode_timestamp(&self, off: usize) -> (r: Result<Timestamp, VoltcraftError>)
        ensures
            r == timestamp_at(self@, off as int),
            r matches Ok(t) ==> -CIVIL_MINUTES_BOUND < t.minutes < CIVIL_MINUTES_BOUND,
    {
        let len = self.raw_data.len();
        if off > len || len - off < RECORD_LEN {
            return Err(VoltcraftError::Truncated);
        }
        let month = self.raw_data[off];
        let day = self.raw_data[off + 1];
        let year = self.raw_data[off + 2];
        let hour = self.raw_data[off + 3];
        let minute = self.raw_data[off + 4];
        match Timestamp::from_civil(year as i32 + 2000, month as u32, day as u32, hour as u32, minute as u32) {
            Some(t) => Ok(t),
            None => Err(VoltcraftError::InvalidTimestamp),
        }
    }

    /// Decodes the power record at `off`: a big-endian voltage, a big-endian
    /// current and a power factor byte, with the powers derived from them.
    pub fn decode_power(&self, off: usize) -> (r: Result<PowerFields, VoltcraftError>)
        ensures
            r == power_at(self@, off as int),
    {
        let len = self.raw_data.len();
        if off > len || len - off < RECORD_LEN {
            return Err(VoltcraftError::Truncated);
        }
        let voltage: u16 = self.raw_data[off] as u16 * 256 + self.raw_data[off + 1] as u16;
        let current: u16 = self.raw_data[off + 2] as u16 * 256 + self.raw_data[off + 3] as u16;
        let power_factor: u8 = self.raw_data[off + 4];
        let v = voltage as u64;
        let c = current as u64;
        let pf = power_factor as u64;
        assert(v * c <= 0xFFFF * 0xFFFF) by (nonlinear_arith)
            requires v <= 0xFFFF, c <= 0xFFFF;
        assert(v * c * pf <= 0xFFFF * 0xFFFF * 0xFF) by (nonlinear_arith)
            requires v * c <= 0xFFFF * 0xFFFF, pf <= 0xFF;
        let apparent_power = v * c * 100;
        let power = v * c * pf;
        Ok((voltage, current, power_factor, power, apparent_power))
    }

    /// Decodes the whole log: the base timestamp, then one reading per power
    /// record up to the end marker, each one minute after the one before.
    pub fn parse(&self) -> (r: Result<Vec<PowerEvent>, VoltcraftError>)
        ensures
            match r {
                Ok(v) => parsed(self@) == Ok::<Seq<PowerEvent>, VoltcraftError>(v@),
                Err(e) => parsed(self@) == Err::<Seq<PowerEvent>, VoltcraftError>(e),
            },
            r is Err <==> (!header_ok(self@) || timestamp_at(self@, BASE_OFFSET as int) is Err
                || record_count(self@, FIRST_RECORD as int) is None),
            r == Err::<Vec<PowerEvent>, VoltcraftError>(VoltcraftError::InvalidFormat) <==> !header_ok(self@),
            r matches Ok(v) ==> forall|i: int| 0 <= i < v.len() ==> formulas_hold(#[trigger] v[i]),
            r matches Ok(v) ==> forall|i: int| 0 <= i < v.len() - 1 ==>
                (#[trigger] v[i + 1]).timestamp.minutes == v[i].timestamp.minutes + 1,
    {
        if !self.is_valid() {
            return Err(VoltcraftError::InvalidFormat);
        }
        let base = match self.decode_timestamp(BASE_OFFSET) {
            Ok(t) => t.minutes,
            Err(e) => return Err(e),
        };
        let ghost b = self@;
        let len = self.raw_data.len();
        let mut off: usize = FIRST_RECORD;
        let mut minute: i64 = base;
        let mut result: Vec<PowerEvent> = Vec::new();
        loop
            invariant
                b == self@,
                len == b.len(),
                FIRST_RECORD <= off <= len,
                off == FIRST_RECORD + 5 * result.len(),
                minute == base + result.len(),
                -CIVIL_MINUTES_BOUND < base < CIVIL_MINUTES_BOUND,
                parsed(b) == match record_count(b, off as int) {
                    Some(n) => Ok(readings(b, base as int, (n + result.len()) as nat)),
                    None => Err(VoltcraftError::Truncated),
                },
                forall|i: int| 0 <= i < result.len() ==>
                    #[trigger] result@[i] == readings(b, base as int, result.len() as nat)[i],
            ensures
                record_count(b, off as int) == Some(0nat),
            decreases len - off,
        {
            if len - off < 4 {
                return Err(VoltcraftError::Truncated);
            }
            if self.is_endofdata(off) {
                assert(record_count(b, off as int) == Some(0nat));
                break;
            }
            let f = match self.decode_power(off) {
                Ok(f) => f,
                Err(e) => return Err(e),
            };
            result.push(PowerEvent {
                timestamp: Timestamp { minutes: minute },
                voltage: f.0,
                current: f.1,
                power_factor: f.2,
                power: f.3,
                apparent_power: f.4,
            });
            off = off + RECORD_LEN;
            minute = minute + 1;
        }
        assert(result@ =~= readings(b, base as int, result.len() as nat));
        assert(parsed(b) == Ok::<Seq<PowerEvent>, VoltcraftError>(readings(b, base as int, result.len() as nat)));
        assert forall|i: int| 0 <= i < result.len() implies formulas_hold(#[trigger] result@[i]) by {
            lemma_event_formulas(b, FIRST_RECORD as int + 5 * i, Timestamp { minutes: (base + i) as i64 });
        }
        Ok(result)
    }
}

} // verus!
