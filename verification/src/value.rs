//! Signal values: fixed-point samples, MIDI events, and the types of ports.

use fixed::types::{I1F15, I1F31};
use vstd::prelude::*;

verus! {

/// A continuous sample: a signed fixed-point number with one integer bit and 31
/// fractional bits. It stands for `bits / 2^31` and so lies in `[-1, 1)`.
#[derive(Clone, Copy, Debug, PartialEq, Eq, Hash)]
pub struct Value {
    pub bits: i32,
}

/// What a MIDI wire carries: one channel event, with notes as their key numbers.
#[derive(Clone, Copy, Debug, PartialEq, Eq, Hash)]
pub enum MidiValue {
    NoteOff(u8, u8),
    NoteOn(u8, u8),
    PolyphonicPressure(u8, u8),
    Controller(u8, u8),
    ProgramChange(u8),
    ChannelPressure(u8),
    PitchBend(u8, u8),
}

#[derive(Clone, Copy, Debug, PartialEq, Eq, Hash)]
pub enum ValueKind {
    Binary,
    Continuous,
    /// The inner number is the maximum.
    Discrete(u8),
    Midi,
}

/// The type of a port: what kind of value it carries, and on how many channels.
#[derive(Clone, Copy, Debug, PartialEq, Eq, Hash)]
pub struct ValueType {
    pub kind: ValueKind,
    pub channels: Option<u8>,
}

/// The mathematical content of what flows through a wire during one tick.
pub enum Signal {
    Midi(Seq<MidiValue>),
    Analog(Seq<Value>),
}

/// What flows through a wire during one tick: the events, or one sample per
/// channel.
#[derive(Debug, PartialEq, Eq)]
pub enum AnyIter {
    Midi(Vec<MidiValue>),
    Analog(Vec<Value>),
}

/// The scale of a `Value`: `bits == SCALE` would be 1.0, which is just out of range.
pub open spec fn scale() -> int {
    0x8000_0000
}

/// The fixed-point product of two samples, as their bits: the exact product
/// rounded towards minus infinity, and the largest sample where the exact
/// product, 1.0, cannot be held.
pub open spec fn spec_mul_bits(a: int, b: int) -> int {
    if a == i32::MIN && b == i32::MIN {
        i32::MAX as int
    } else {
        (a * b) / scale()
    }
}

/// The product of two fixed-point numbers stays in range.
pub proof fn lemma_mul_bits_range(a: int, b: int)
    requires
        i32::MIN <= a <= i32::MAX,
        i32::MIN <= b <= i32::MAX,
    ensures
        i32::MIN <= spec_mul_bits(a, b) <= i32::MAX,
{
    if !(a == i32::MIN && b == i32::MIN) {
        assert(-0x4000_0000_0000_0000 <= a * b < 0x4000_0000_0000_0000) by (nonlinear_arith)
            requires
                -0x8000_0000 <= a <= 0x7fff_ffff,
                -0x8000_0000 <= b <= 0x7fff_ffff,
                !(a == -0x8000_0000 && b == -0x8000_0000),
        ;
    }
}

/// Multiplying by the largest sample changes a sample by at most one unit in
/// the last place.
pub proof fn lemma_mul_by_max(x: int)
    requires
        i32::MIN <= x <= i32::MAX,
    ensures
        x - 1 <= spec_mul_bits(x, i32::MAX as int) <= x + 1,
        x == 0 ==> spec_mul_bits(x, i32::MAX as int) == 0,
{
    assert(x * 0x7fff_ffff == x * 0x8000_0000 - x) by (nonlinear_arith);
}

/// `FixedI32::saturating_mul` of the `fixed` crate, at 31 fractional bits. The
/// contract claims what its source computes: the 64-bit product shifted right
/// by 31 bits, and the largest value in the one case that overflows.
#[verifier::external_body]
fn fixed_saturating_mul(a: i32, b: i32) -> (r: i32)
    ensures
        r == spec_mul_bits(a as int, b as int),
{
    I1F31::from_bits(a).saturating_mul(I1F31::from_bits(b)).to_bits()
}

/// `FixedI32::from_num` of the `fixed` crate, from 15 to 31 fractional bits:
/// the value is kept, so the bits are scaled by `2^16`.
#[verifier::external_body]
fn fixed_widen(sample: i16) -> (r: i32)
    ensures
        r == sample * 0x1_0000,
{
    I1F31::from_num(I1F15::from_bits(sample)).to_bits()
}

/// `FixedI16::from_num` of the `fixed` crate, from 31 to 15 fractional bits:
/// the extra fractional bits are discarded, which rounds towards minus infinity.
#[verifier::external_body]
fn fixed_narrow(bits: i32) -> (r: i16)
    ensures
        r == bits as int / 0x1_0000,
{
    I1F15::from_num(I1F31::from_bits(bits)).to_bits()
}

impl Value {
    pub open spec fn spec_zero() -> Value {
        Value { bits: 0 }
    }

    pub open spec fn spec_max() -> Value {
        Value { bits: i32::MAX }
    }

    pub open spec fn spec_min() -> Value {
        Value { bits: i32::MIN }
    }

    /// The product of two samples.
    pub open spec fn spec_mul(self, rhs: Value) -> Value {
        Value { bits: spec_mul_bits(self.bits as int, rhs.bits as int) as i32 }
    }

    /// The sample as an unsigned number: `bits + i32::MAX`, modulo `2^32`.
    pub open spec fn spec_to_u(self) -> u32 {
        ((self.bits + 0x7fff_ffff) % 0x1_0000_0000) as u32
    }

    /// The inverse of `spec_to_u`.
    pub open spec fn spec_from_u(other: u32) -> Value {
        Value {
            bits: if other <= 0xffff_fffe {
                (other - 0x7fff_ffff) as i32
            } else {
                i32::MIN
            },
        }
    }

    /// The step of a scale of `max` steps that the sample falls on: nothing below
    /// zero, else the sample times `max`, rounded down.
    pub open spec fn spec_discrete(self, max: u8) -> int {
        if self.bits <= 0 {
            0
        } else {
            (self.bits * max) / scale()
        }
    }

    pub fn from_bits(bits: i32) -> (v: Value)
        ensures
            v.bits == bits,
    {
        Value { bits }
    }

    pub fn to_bits(self) -> (bits: i32)
        ensures
            bits == self.bits,
    {
        self.bits
    }

    pub fn zero() -> (v: Value)
        ensures
            v == Value::spec_zero(),
    {
        Value { bits: 0 }
    }

    pub fn max_value() -> (v: Value)
        ensures
            v == Value::spec_max(),
    {
        Value { bits: i32::MAX }
    }

    pub fn min_value() -> (v: Value)
        ensures
            v == Value::spec_min(),
    {
        Value { bits: i32::MIN }
    }

    /// Multiplies two samples, saturating where the product is out of range.
    pub fn saturating_mul(self, rhs: Value) -> (v: Value)
        ensures
            v == self.spec_mul(rhs),
    {
        proof {
            lemma_mul_bits_range(self.bits as int, rhs.bits as int);
        }
        Value { bits: fixed_saturating_mul(self.bits, rhs.bits) }
    }

    /// The sample for a signed 16-bit audio sample of the same value.
    pub fn from_sample(sample: i16) -> (v: Value)
        ensures
            v.bits == sample * 0x1_0000,
    {
        Value { bits: fixed_widen(sample) }
    }

    /// The signed 16-bit audio sample nearest below this sample.
    pub fn to_sample(self) -> (sample: i16)
        ensures
            sample == self.bits as int / 0x1_0000,
    {
        fixed_narrow(self.bits)
    }

    pub fn discrete(self, max: u8) -> (step: u8)
        ensures
            step == self.spec_discrete(max),
            max > 0 ==> step < max,
            max == 0 ==> step == 0,
    {
        if self.bits <= 0 {
            0
        } else {
            assert(0 <= self.bits * max <= 0x7fff_ffff * 255 && (max > 0 ==> self.bits * max
                < 0x8000_0000 * max)) by (nonlinear_arith)
                requires
                    0 < self.bits <= 0x7fff_ffff,
                    0 <= max <= 255,
            ;
            let wide: i64 = (self.bits as i64) * (max as i64);
            let step: i64 = wide / 0x8000_0000i64;
            step as u8
        }
    }

    pub fn to_u(self) -> (u: u32)
        ensures
            u == self.spec_to_u(),
    {
        if self.bits >= -0x7fff_ffff {
            (self.bits as i64 + 0x7fff_ffffi64) as u32
        } else {
            0xffff_ffffu32
        }
    }

    pub fn from_u(other: u32) -> (v: Value)
        ensures
            v == Value::spec_from_u(other),
    {
        if other <= 0xffff_fffeu32 {
            Value { bits: (other as i64 - 0x7fff_ffffi64) as i32 }
        } else {
            Value { bits: i32::MIN }
        }
    }
}

/// Converting a sample to an unsigned number and back gives the sample.
pub proof fn lemma_to_u_from_u(v: Value)
    ensures
        Value::spec_from_u(v.spec_to_u()) == v,
{
}

impl ValueType {
    pub open spec fn spec_continuous() -> ValueType {
        ValueType { kind: ValueKind::Continuous, channels: None }
    }

    pub open spec fn spec_mono() -> ValueType {
        ValueType { kind: ValueKind::Continuous, channels: Some(1u8) }
    }

    pub open spec fn spec_stereo() -> ValueType {
        ValueType { kind: ValueKind::Continuous, channels: Some(2u8) }
    }

    /// How many samples a port of this type carries per tick: its channels where
    /// it is continuous and says how many, else none.
    pub open spec fn spec_audio_channels(self) -> nat {
        match (self.kind, self.channels) {
            (ValueKind::Continuous, Some(n)) => n as nat,
            _ => 0,
        }
    }

    pub fn continuous() -> (t: ValueType)
        ensures
            t == ValueType::spec_continuous(),
    {
        ValueType { kind: ValueKind::Continuous, channels: None }
    }

    pub fn mono() -> (t: ValueType)
        ensures
            t == ValueType::spec_mono(),
    {
        ValueType { kind: ValueKind::Continuous, channels: Some(1) }
    }

    pub fn stereo() -> (t: ValueType)
        ensures
            t == ValueType::spec_stereo(),
    {
        ValueType { kind: ValueKind::Continuous, channels: Some(2) }
    }

    pub fn audio_channels(&self) -> (n: u8)
        ensures
            n == self.spec_audio_channels(),
    {
        match self.kind {
            ValueKind::Continuous => match self.channels {
                Some(n) => n,
                None => 0,
            },
            _ => 0,
        }
    }
}

/// The signal that stands for a port of type `ty` before anything was computed
/// for it: silence on each of its channels (on one, where it does not say how
/// many), or no events.
pub open spec fn spec_default_signal(ty: ValueType) -> Signal {
    match ty.kind {
        ValueKind::Midi => Signal::Midi(Seq::empty()),
        _ => Signal::Analog(
            Seq::new(
                match ty.channels {
                    Some(n) => n as nat,
                    None => 1,
                },
                |i: int| Value::spec_zero(),
            ),
        ),
    }
}

impl View for AnyIter {
    type V = Signal;

    open spec fn view(&self) -> Signal {
        match self {
            AnyIter::Midi(events) => Signal::Midi(events@),
            AnyIter::Analog(samples) => Signal::Analog(samples@),
        }
    }
}

/// The content of a signal that may be absent.
pub open spec fn opt_signal(s: Option<AnyIter>) -> Option<Signal> {
    match s {
        Some(s) => Some(s@),
        None => None,
    }
}

pub fn copy_values(samples: &Vec<Value>) -> (out: Vec<Value>)
    ensures
        out@ == samples@,
{
    let mut out: Vec<Value> = Vec::new();
    let mut i: usize = 0;
    while i < samples.len()
        invariant
            i <= samples.len(),
            out@ == samples@.take(i as int),
        decreases samples.len() - i,
    {
        out.push(samples[i]);
        assert(samples@.take(i as int).push(samples@[i as int]) =~= samples@.take(i + 1));
        i += 1;
    }
    assert(samples@.take(samples.len() as int) =~= samples@);
    out
}

pub fn copy_events(events: &Vec<MidiValue>) -> (out: Vec<MidiValue>)
    ensures
        out@ == events@,
{
    let mut out: Vec<MidiValue> = Vec::new();
    let mut i: usize = 0;
    while i < events.len()
        invariant
            i <= events.len(),
            out@ == events@.take(i as int),
        decreases events.len() - i,
    {
        out.push(events[i]);
        assert(events@.take(i as int).push(events@[i as int]) =~= events@.take(i + 1));
        i += 1;
    }
    assert(events@.take(events.len() as int) =~= events@);
    out
}

impl AnyIter {
    pub fn duplicate(&self) -> (out: AnyIter)
        ensures
            out@ == self@,
    {
        match self {
            AnyIter::Midi(events) => AnyIter::Midi(copy_events(events)),
            AnyIter::Analog(samples) => AnyIter::Analog(copy_values(samples)),
        }
    }

    /// The samples, where the signal is analog.
    pub fn analog(&self) -> (samples: Option<&Vec<Value>>)
        ensures
            match self@ {
                Signal::Analog(s) => samples.is_some() && samples.unwrap()@ == s,
                Signal::Midi(_) => samples.is_none(),
            },
    {
        match self {
            AnyIter::Analog(samples) => Some(samples),
            AnyIter::Midi(_) => None,
        }
    }

    /// The events, where the signal is MIDI.
    pub fn midi(&self) -> (events: Option<&Vec<MidiValue>>)
        ensures
            match self@ {
                Signal::Midi(e) => events.is_some() && events.unwrap()@ == e,
                Signal::Analog(_) => events.is_none(),
            },
    {
        match self {
            AnyIter::Midi(events) => Some(events),
            AnyIter::Analog(_) => None,
        }
    }

    /// The signal for a port of type `ty` for which nothing was computed yet.
    pub fn default_for(ty: ValueType) -> (out: AnyIter)
        ensures
            out@ == spec_default_signal(ty),
    {
        match ty.kind {
            ValueKind::Midi => AnyIter::Midi(Vec::new()),
            _ => {
                let n: u8 = match ty.channels {
                    Some(n) => n,
                    None => 1,
                };
                let mut samples: Vec<Value> = Vec::new();
                let mut i: u8 = 0;
                while i < n
                    invariant
                        i <= n,
                        samples@ == Seq::new(i as nat, |j: int| Value::spec_zero()),
                    decreases n - i,
                {
                    samples.push(Value::zero());
                    assert(samples@ =~= Seq::new((i + 1) as nat, |j: int| Value::spec_zero()));
                    i += 1;
                }
                AnyIter::Analog(samples)
            },
        }
    }
}

pub fn duplicate_opt(s: &Option<AnyIter>) -> (out: Option<AnyIter>)
    ensures
        opt_signal(out) == opt_signal(*s),
{
    match s {
        Some(s) => Some(s.duplicate()),
        None => None,
    }
}

} // verus!
