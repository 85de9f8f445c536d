//! The audio-level header extension value: a voice flag and a level in -dBov.
use vstd::prelude::*;
use crate::error::{RtpError, short};

verus! {

/// A level in -dBov: 0 is the loudest, 127 the quietest.
#[derive(Debug, Clone, Copy, PartialEq, Eq, Structural)]
pub struct AudioLevelVolume(pub u8);

/// The order of loudness: a lower -dBov value is the greater level.
pub open spec fn loudness_order(a: u8, b: u8) -> core::cmp::Ordering {
    if a > b {
        core::cmp::Ordering::Less
    } else if a == b {
        core::cmp::Ordering::Equal
    } else {
        core::cmp::Ordering::Greater
    }
}

impl AudioLevelVolume {
    /// The loudest level.
    pub fn max() -> (r: AudioLevelVolume)
        ensures
            r.0 == 0,
    {
        AudioLevelVolume(0)
    }

    /// The quietest level the field can carry.
    pub fn min() -> (r: AudioLevelVolume)
        ensures
            r.0 == 127,
    {
        AudioLevelVolume(127)
    }

    /// Below any level the field can carry.
    pub fn inf_min() -> (r: AudioLevelVolume)
        ensures
            r.0 == 128,
    {
        AudioLevelVolume(128)
    }

    /// The level held in the low seven bits of `val`.
    pub fn from_i64(val: i64) -> (r: Self)
        ensures
            r.0 == val % 128,
    {
        let low = (val & 0xff) as u8;
        assert(val & 0xff == val % 256) by (bit_vector);
        assert(low & 0x7fu8 == low % 128) by (bit_vector);
        AudioLevelVolume(low & 0x7f)
    }

    /// The level as a plain integer.
    pub fn as_i64(&self) -> (r: i64)
        ensures
            r == self.0,
    {
        self.0 as i64
    }
}

/// The level `v` made louder by `rhs` dB, no louder than the loudest.
pub open spec fn louder_by(v: u8, rhs: u8) -> u8 {
    if v >= rhs {
        (v - rhs) as u8
    } else {
        0
    }
}

/// The level `v` made quieter by `rhs` dB, no quieter than the quietest.
pub open spec fn quieter_by(v: u8, rhs: u8) -> u8 {
    if v + rhs <= 127 {
        (v + rhs) as u8
    } else {
        127
    }
}

impl std::ops::Add<u8> for AudioLevelVolume {
    type Output = AudioLevelVolume;

    fn add(self, rhs: u8) -> (r: AudioLevelVolume)
        ensures
            r.0 == louder_by(self.0, rhs),
    {
        if self.0 >= rhs {
            AudioLevelVolume(self.0 - rhs)
        } else {
            AudioLevelVolume::max()
        }
    }
}

impl vstd::std_specs::ops::AddSpecImpl<u8> for AudioLevelVolume {
    open spec fn obeys_add_spec() -> bool {
        true
    }

    open spec fn add_req(self, rhs: u8) -> bool {
        true
    }

    open spec fn add_spec(self, rhs: u8) -> AudioLevelVolume {
        AudioLevelVolume(louder_by(self.0, rhs))
    }
}

impl std::ops::Sub<u8> for AudioLevelVolume {
    type Output = AudioLevelVolume;

    fn sub(self, rhs: u8) -> (r: AudioLevelVolume)
        ensures
            r.0 == quieter_by(self.0, rhs),
    {
        let v = self.0.saturating_add(rhs);
        if v <= 127 {
            AudioLevelVolume(v)
        } else {
            AudioLevelVolume::min()
        }
    }
}

impl vstd::std_specs::ops::SubSpecImpl<u8> for AudioLevelVolume {
    open spec fn obeys_sub_spec() -> bool {
        true
    }

    open spec fn sub_req(self, rhs: u8) -> bool {
        true
    }

    open spec fn sub_spec(self, rhs: u8) -> AudioLevelVolume {
        AudioLevelVolume(quieter_by(self.0, rhs))
    }
}

impl PartialOrd for AudioLevelVolume {
    fn partial_cmp(&self, other: &AudioLevelVolume) -> (r: Option<core::cmp::Ordering>)
        ensures
            r == Some(loudness_order(self.0, other.0)),
    {
        if self.0 > other.0 {
            Some(core::cmp::Ordering::Less)
        } else if self.0 == other.0 {
            Some(core::cmp::Ordering::Equal)
        } else {
            Some(core::cmp::Ordering::Greater)
        }
    }
}

impl vstd::std_specs::cmp::PartialOrdSpecImpl for AudioLevelVolume {
    open spec fn obeys_partial_cmp_spec() -> bool {
        true
    }

    open spec fn partial_cmp_spec(&self, other: &AudioLevelVolume) -> Option<core::cmp::Ordering> {
        Some(loudness_order(self.0, other.0))
    }
}

/// The audio-level value: whether the packet holds voice, and its level.
#[derive(Debug, Clone, Copy)]
pub struct AudioLevelValue {
    pub voice: bool,
    pub volume: AudioLevelVolume,
}

impl Default for AudioLevelValue {
    fn default() -> (r: Self)
        ensures
            !r.voice,
            r.volume.0 == 127,
    {
        AudioLevelValue { voice: false, volume: AudioLevelVolume::min() }
    }
}

impl AudioLevelValue {
    /// Reads the value from the first byte of `data`: the voice flag in the
    /// high bit, the level in the other seven.
    pub fn parse(data: &[u8]) -> (r: Result<Self, RtpError>)
        ensures
            data@.len() < 1 ==> r == Err::<Self, RtpError>(
                short(1, data@.len() as int, "Audio level value length"),
            ),
            data@.len() >= 1 ==> (r matches Ok(v) && v.voice == (data@[0] >= 128) && v.volume.0
                == data@[0] % 128),
    {
        if data.len() < 1 {
            return Err(RtpError::NotEnoughBuffer {
                expect: 1,
                actual: data.len(),
                origin: "Audio level value length",
            });
        }
        let volume = data[0];
        proof {
            crate::wire::lemma_byte_fields(volume);
        }
        Ok(AudioLevelValue {
            voice: (volume & 0b1000_0000) != 0,
            volume: AudioLevelVolume(volume & 0b0111_1111),
        })
    }

    /// The one byte of the value: the voice flag in the high bit, the level
    /// in the other seven.
    pub fn to_bytes(&self) -> (r: [u8; 1])
        ensures
            r@[0] == (if self.voice {
                self.volume.0 | 0x80u8
            } else {
                self.volume.0
            }),
            self.volume.0 < 128 ==> r@[0] == (if self.voice {
                128 + self.volume.0
            } else {
                self.volume.0 as int
            }),
    {
        let b = if self.voice {
            self.volume.0 | 0b1000_0000
        } else {
            self.volume.0
        };
        proof {
            let v = self.volume.0;
            assert(v < 128 ==> v | 0x80u8 == 128 + v) by (bit_vector);
        }
        [b]
    }
}

} // verus!
