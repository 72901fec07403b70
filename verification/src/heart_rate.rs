//! Decoding of a raw Heart Rate Measurement characteristic buffer into a
//! structured sample: beats per minute plus an optional list of R-R
//! intervals in milliseconds.

use vstd::prelude::*;

verus! {

/// Unsigned value of a little-endian byte sequence.
pub open spec fn le_unsigned(s: Seq<u8>) -> int
    decreases s.len(),
{
    if s.len() == 0 {
        0
    } else {
        s[0] + 256 * le_unsigned(s.skip(1))
    }
}

/// Signed (two's-complement) value of a little-endian byte sequence: the
/// unsigned value, shifted down by one full range when the most significant
/// bit of the last byte is set.
pub open spec fn le_signed(s: Seq<u8>) -> int {
    if s.len() > 0 && s[s.len() - 1] >= 0x80 {
        le_unsigned(s) - pow256(s.len() as nat)
    } else {
        le_unsigned(s)
    }
}

/// 256^n, the number of values of an n-byte field.
pub open spec fn pow256(n: nat) -> int
    decreases n,
{
    if n == 0 {
        1
    } else {
        256 * pow256((n - 1) as nat)
    }
}

/// Decode a little-endian byte span of width 1, 2, or 3 into a
/// sign-extended 32-bit integer.
pub fn bytes_to_data(data: &[u8], len: usize) -> (r: i32)
    requires
        data@.len() == len,
        1 <= len <= 3,
    ensures
        r as int == le_signed(data@),
{
    if len == 3 {
        let v: i32 = data[0] as i32 + 256 * (data[1] as i32) + 65536 * (data[2] as i32);
        proof {
            let s1 = data@.skip(1);
            let s2 = s1.skip(1);
            let s3 = s2.skip(1);
            assert(s3.len() == 0 && le_unsigned(s3) == 0);
            assert(s2.len() == 1 && s2[0] == data@[2]);
            assert(le_unsigned(s2) == data@[2]);
            assert(s1.len() == 2 && s1[0] == data@[1] && s1.skip(1) =~= s2);
            assert(le_unsigned(s1) == data@[1] + 256 * data@[2]);
            assert(le_unsigned(data@) == data@[0] + 256 * le_unsigned(s1));
            assert(pow256(0) == 1);
            assert(pow256(1) == 256);
            assert(pow256(2) == 65536);
            assert(pow256(3) == 16777216);
        }
        if data[2] >= 0x80 {
            v - 16777216
        } else {
            v
        }
    } else if len == 2 {
        let v: i32 = data[0] as i32 + 256 * (data[1] as i32);
        proof {
            let s1 = data@.skip(1);
            let s2 = s1.skip(1);
            assert(s2.len() == 0 && le_unsigned(s2) == 0);
            assert(s1.len() == 1 && s1[0] == data@[1]);
            assert(le_unsigned(s1) == data@[1]);
            assert(le_unsigned(data@) == data@[0] + 256 * le_unsigned(s1));
            assert(pow256(0) == 1);
            assert(pow256(1) == 256);
            assert(pow256(2) == 65536);
        }
        if data[1] >= 0x80 {
            v - 65536
        } else {
            v
        }
    } else {
        let v: i32 = data[0] as i32;
        proof {
            let s1 = data@.skip(1);
            assert(s1.len() == 0 && le_unsigned(s1) == 0);
            assert(le_unsigned(data@) == data@[0] + 256 * le_unsigned(s1));
            assert(pow256(0) == 1);
            assert(pow256(1) == 256);
        }
        if data[0] >= 0x80 {
            v - 256
        } else {
            v
        }
    }
}

/// Errors from decoding a raw Heart Rate Measurement buffer.
#[derive(Clone, Copy, Debug, PartialEq, Eq, Structural)]
pub enum HeartRateError {
    /// The buffer is shorter than the two mandatory bytes (flags, bpm).
    InvalidLength,
}

/// The flags byte has bit 4 set: R-R interval fields are present.
pub open spec fn has_rr_flag(data: Seq<u8>) -> bool {
    data.len() >= 1 && data[0] & 0x10 == 0x10
}

/// Number of 2-byte R-R fields in the buffer: the bytes after flags and
/// bpm, taken in pairs, and none at all when the flags bit is clear.
pub open spec fn rr_sample_count(data: Seq<u8>) -> int {
    if has_rr_flag(data) && data.len() >= 2 {
        (data.len() - 2) / 2
    } else {
        0
    }
}

/// Raw tick count of the i-th R-R field: unsigned 16-bit little-endian at
/// offset 2 + 2*i.
pub open spec fn rr_raw(data: Seq<u8>, i: int) -> int {
    data[2 + 2 * i] + 256 * data[3 + 2 * i]
}

/// Conversion of a raw R-R tick count (1024ths of a second) to the
/// device's millisecond scale: raw * 128 / 125 with truncating division,
/// reduced modulo 2^16 to fit the result field.
pub open spec fn ticks_to_ms_spec(raw: int) -> u16 {
    (((raw * 128) / 125) % 65536) as u16
}

/// A raw tick count this large would read as negative under a signed
/// 16-bit interpretation; the protocol defines the field as unsigned, so
/// such a value is a protocol anomaly.
pub open spec fn raw_is_anomalous(raw: int) -> bool {
    raw >= 0x8000
}

/// The R-R intervals decoded from a buffer, in arrival order, each
/// converted to milliseconds.
pub open spec fn decoded_rr(data: Seq<u8>) -> Seq<u16> {
    Seq::new(rr_sample_count(data) as nat, |i: int| ticks_to_ms_spec(rr_raw(data, i)))
}

/// Some R-R field of the buffer carries an anomalous raw value.
pub open spec fn any_anomaly(data: Seq<u8>) -> bool {
    exists|i: int| 0 <= i < rr_sample_count(data) && raw_is_anomalous(rr_raw(data, i))
}

/// Convert a raw R-R tick count to whole milliseconds. The field is
/// protocol-defined unsigned, so the raw value is taken as unsigned; a
/// value at or above 0x8000 overflows the 16-bit millisecond result and is
/// reduced modulo 2^16 (callers flag such values as anomalies).
pub fn ticks_to_ms(raw: u16) -> (ms: u16)
    ensures
        ms == ticks_to_ms_spec(raw as int),
        !raw_is_anomalous(raw as int) ==> ms == (raw as int) * 128 / 125,
{
    let wide: u32 = (raw as u32) * 128 / 125;
    (wide % 65536) as u16
}

/// One decoded Heart Rate Measurement sample: beats per minute, and the
/// R-R intervals (milliseconds) when the payload carried any.
#[derive(Debug)]
pub struct HeartRate {
    bpm: u8,
    rr: Option<Vec<u16>>,
    anomalous: bool,
}

impl HeartRate {
    /// Beats per minute, as decoded.
    pub closed spec fn spec_bpm(self) -> u8 {
        self.bpm
    }

    /// The decoded R-R intervals, absent when the payload carried none.
    pub closed spec fn spec_rr(self) -> Option<Seq<u16>> {
        match self.rr {
            Option::Some(v) => Option::Some(v@),
            Option::None => Option::None,
        }
    }

    /// Whether any R-R field carried an anomalous (would-be-negative) raw
    /// value.
    pub closed spec fn spec_anomalous(self) -> bool {
        self.anomalous
    }

    /// Decode one raw characteristic buffer.
    ///
    /// Fails exactly when the buffer is shorter than 2 bytes. Otherwise
    /// bpm is the second byte, and when the flags bit signals R-R
    /// presence, the remaining bytes are decoded in consecutive 2-byte
    /// little-endian fields, each converted to milliseconds.
    pub fn new(data: &Vec<u8>) -> (r: Result<HeartRate, HeartRateError>)
        ensures
            data@.len() < 2 <==> r is Err,
            r matches Err(e) ==> e == HeartRateError::InvalidLength,
            r matches Ok(hr) ==> {
                &&& hr.spec_bpm() == data@[1]
                &&& hr.spec_rr() == (if rr_sample_count(data@) == 0 {
                    Option::<Seq<u16>>::None
                } else {
                    Option::Some(decoded_rr(data@))
                })
                &&& hr.spec_anomalous() == any_anomaly(data@)
            },
    {
        if data.len() < 2 {
            return Err(HeartRateError::InvalidLength);
        }
        let flags = data[0];
        let samples: usize = if flags & 0x10 == 0x10 {
            (data.len() - 2) / 2
        } else {
            0
        };
        let bpm = data[1];
        let mut rr_samp: Vec<u16> = Vec::new();
        let mut anomalous = false;
        let mut i: usize = 0;
        while i < samples
            invariant
                samples == rr_sample_count(data@),
                2 <= data@.len() <= usize::MAX,
                samples > 0 ==> has_rr_flag(data@) && 2 + 2 * samples <= data@.len(),
                i <= samples,
                rr_samp@.len() == i,
                forall|j: int| 0 <= j < i ==> rr_samp@[j] == ticks_to_ms_spec(rr_raw(data@, j)),
                anomalous == exists|j: int|
                    0 <= j < i && raw_is_anomalous(rr_raw(data@, j)),
            decreases samples - i,
        {
            proof {
                assert(2 + 2 * samples <= data@.len());
                assert(i * 2 + 3 < data@.len());
            }
            let raw: u16 = data[i * 2 + 2] as u16 + 256 * (data[i * 2 + 3] as u16);
            proof {
                assert(raw as int == rr_raw(data@, i as int));
            }
            if raw >= 0x8000 {
                anomalous = true;
                proof {
                    assert(raw_is_anomalous(rr_raw(data@, i as int)));
                }
            }
            rr_samp.push(ticks_to_ms(raw));
            i += 1;
        }
        let rr = if rr_samp.len() > 0 {
            Some(rr_samp)
        } else {
            None
        };
        let hr = HeartRate { bpm, rr, anomalous };
        proof {
            if rr_sample_count(data@) > 0 {
                assert(hr.spec_rr() matches Some(s) && s =~= decoded_rr(data@));
            }
        }
        Ok(hr)
    }

    /// Get BPM of the heart rate measurement.
    pub fn bpm(&self) -> (r: u8)
        ensures
            r == self.spec_bpm(),
    {
        self.bpm
    }

    /// Get the R-R intervals, if the payload carried any.
    pub fn rr(&self) -> (r: &Option<Vec<u16>>)
        ensures
            r matches Some(v) ==> self.spec_rr() == Option::Some(v@),
            r is None <==> self.spec_rr() is None,
    {
        &self.rr
    }

    /// Whether any R-R field of the payload carried an anomalous raw
    /// value (reported so a caller can warn; the sample is still usable).
    pub fn anomalous(&self) -> (r: bool)
        ensures
            r == self.spec_anomalous(),
    {
        self.anomalous
    }
}

} // verus!
