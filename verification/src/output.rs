//! A rack as a stream of audio frames: one frame of samples in, one frame out,
//! for each tick.

use crate::components::{Component, RuntimeSpecifier};
use crate::context::{spec_frame_inputs, Context};
use crate::eval::HostView;
use crate::rack::{Rack, RackView};
use crate::value::{opt_signal, AnyIter, Signal, Value, ValueKind, ValueType};
use vstd::prelude::*;

verus! {

pub const DEFAULT_SAMPLE_RATE: u32 = 44100;

/// How many samples the ports carry per tick, all together.
pub open spec fn spec_num_audio_channels(types: Seq<ValueType>) -> nat {
    crate::context::spec_channel_offset(types, types.len() as int)
}

/// The samples of a signal as 16-bit audio samples.
pub open spec fn spec_samples(values: Seq<Value>) -> Seq<i16> {
    Seq::new(values.len(), |i: int| (values[i].bits as int / 0x1_0000) as i16)
}

/// The samples that an output gives to a frame: those of its signal, where it
/// has an analog one, and then silence until there are `min_len` of them.
pub open spec fn spec_or_zero(signal: Option<Signal>, min_len: nat) -> Seq<i16> {
    let samples = match signal {
        Some(Signal::Analog(values)) => spec_samples(values),
        _ => Seq::empty(),
    };
    if samples.len() >= min_len {
        samples
    } else {
        samples + Seq::new((min_len - samples.len()) as nat, |i: int| 0i16)
    }
}

/// The frame that the outputs from the `port`th on add to `acc`, and the rack
/// afterwards: each continuous output is asked for its signal, in the order of
/// the ports, and gives at least as many samples as it has channels.
pub open spec fn spec_render<C: Component>(
    rack: RackView<C>,
    types: Seq<ValueType>,
    host: HostView,
    port: nat,
    acc: Seq<i16>,
) -> (Seq<i16>, RackView<C>)
    decreases types.len() - port,
{
    if port >= types.len() {
        (acc, rack)
    } else if types[port as int].kind is Continuous {
        let (signal, next) = rack.output(None, port as usize, host);
        spec_render(
            next,
            types,
            host,
            port + 1,
            acc + spec_or_zero(signal, types[port as int].spec_audio_channels()),
        )
    } else {
        spec_render(rack, types, host, port + 1, acc)
    }
}

/// The frame that a rack gives for a frame of samples, and the rack
/// afterwards: a tick begins with the samples as the host's inputs, and the
/// outputs are rendered.
pub open spec fn spec_tick<C: Component>(
    rack: RackView<C>,
    input_types: Seq<ValueType>,
    output_types: Seq<ValueType>,
    sources: Seq<i16>,
    sample_rate: u32,
) -> (Seq<i16>, RackView<C>) {
    let host = HostView { inputs: spec_frame_inputs(input_types, sources), sample_rate };
    spec_render(rack.update(None, host), output_types, host, 0, Seq::empty())
}

/// How many samples a frame for these ports holds.
pub fn num_audio_channels(types: &Vec<ValueType>) -> (count: u128)
    ensures
        count == spec_num_audio_channels(types@),
{
    let mut count: u128 = 0;
    let mut port: usize = 0;
    while port < types.len()
        invariant
            port <= types.len(),
            count == crate::context::spec_channel_offset(types@, port as int),
            count <= 255 * port,
        decreases types.len() - port,
    {
        count = count + types[port].audio_channels() as u128;
        port += 1;
    }
    count
}

/// The samples that an output gives to a frame.
pub fn or_zero(signal: &Option<AnyIter>, min_len: usize) -> (samples: Vec<i16>)
    ensures
        samples@ == spec_or_zero(opt_signal(*signal), min_len as nat),
{
    let mut samples: Vec<i16> = Vec::new();
    match signal {
        Some(AnyIter::Analog(values)) => {
            let mut i: usize = 0;
            while i < values.len()
                invariant
                    i <= values.len(),
                    samples@ == spec_samples(values@.take(i as int)),
                decreases values.len() - i,
            {
                samples.push(values[i].to_sample());
                assert(samples@ =~= spec_samples(values@.take(i + 1)));
                i += 1;
            }
            assert(values@.take(values.len() as int) =~= values@);
        },
        _ => {},
    }
    let ghost given = samples@;
    while samples.len() < min_len
        invariant
            given.len() <= samples@.len(),
            samples@.len() <= min_len || samples@.len() == given.len(),
            samples@ == given + Seq::new((samples@.len() - given.len()) as nat, |i: int| 0i16),
        decreases min_len - samples.len(),
    {
        samples.push(0);
        assert(samples@ =~= given + Seq::new(
            (samples@.len() - given.len()) as nat,
            |i: int| 0i16,
        ));
    }
    assert(samples@ =~= spec_or_zero(opt_signal(*signal), min_len as nat));
    samples
}

/// A rack with the ports through which audio goes in and out of it.
pub struct AudioStreamer<C: Component, InputSpec: RuntimeSpecifier, OutputSpec: RuntimeSpecifier> {
    sample_rate: u32,
    input_types: Vec<ValueType>,
    output_types: Vec<ValueType>,
    rack: Rack<C, InputSpec, OutputSpec>,
}

/// What an audio streamer holds.
pub struct AudioStreamerView<C> {
    pub sample_rate: u32,
    pub input_types: Seq<ValueType>,
    pub output_types: Seq<ValueType>,
    pub rack: RackView<C>,
}

impl<C: Component, InputSpec: RuntimeSpecifier, OutputSpec: RuntimeSpecifier> View for AudioStreamer<
    C,
    InputSpec,
    OutputSpec,
> {
    type V = AudioStreamerView<C>;

    closed spec fn view(&self) -> AudioStreamerView<C> {
        AudioStreamerView {
            sample_rate: self.sample_rate,
            input_types: self.input_types@,
            output_types: self.output_types@,
            rack: self.rack@,
        }
    }
}

impl<C: Component, InputSpec: RuntimeSpecifier, OutputSpec: RuntimeSpecifier> AudioStreamer<
    C,
    InputSpec,
    OutputSpec,
> {
    /// A streamer for a rack, at `sample_rate` or, without one, at the default
    /// rate.
    pub fn new_unchecked(
        sample_rate: Option<u32>,
        rack: Rack<C, InputSpec, OutputSpec>,
        input_types: Vec<ValueType>,
        output_types: Vec<ValueType>,
    ) -> (streamer: Self)
        ensures
            streamer@ == (AudioStreamerView {
                sample_rate: match sample_rate {
                    Some(rate) => rate,
                    None => DEFAULT_SAMPLE_RATE,
                },
                input_types: input_types@,
                output_types: output_types@,
                rack: rack@,
            }),
    {
        let sample_rate = match sample_rate {
            Some(rate) => rate,
            None => DEFAULT_SAMPLE_RATE,
        };
        AudioStreamer { sample_rate, input_types, output_types, rack }
    }

    /// A streamer for a rack and a source of audio, where the source has the
    /// streamer's sample rate and as many channels as the rack's outputs give.
    pub fn new(
        sample_rate: Option<u32>,
        rack: Rack<C, InputSpec, OutputSpec>,
        input_types: Vec<ValueType>,
        output_types: Vec<ValueType>,
        source_rate: u32,
        source_channels: u16,
    ) -> (streamer: Option<Self>)
        ensures
            match streamer {
                Some(s) => s@ == (AudioStreamerView {
                    sample_rate: source_rate,
                    input_types: input_types@,
                    output_types: output_types@,
                    rack: rack@,
                }),
                None => true,
            },
            streamer.is_some() <==> source_rate == (match sample_rate {
                Some(rate) => rate,
                None => DEFAULT_SAMPLE_RATE,
            }) && source_channels == spec_num_audio_channels(output_types@),
    {
        let rate = match sample_rate {
            Some(rate) => rate,
            None => DEFAULT_SAMPLE_RATE,
        };
        if source_rate == rate && source_channels as u128 == num_audio_channels(&output_types) {
            Some(Self::new_unchecked(Some(rate), rack, input_types, output_types))
        } else {
            None
        }
    }

    pub fn sample_rate(&self) -> (rate: u32)
        ensures
            rate == self@.sample_rate,
    {
        self.sample_rate
    }

    /// How many samples go into a frame of input.
    pub fn input_channels(&self) -> (count: u128)
        ensures
            count == spec_num_audio_channels(self@.input_types),
    {
        num_audio_channels(&self.input_types)
    }

    /// How many samples a frame of output holds at least.
    pub fn channels(&self) -> (count: u128)
        ensures
            count == spec_num_audio_channels(self@.output_types),
    {
        num_audio_channels(&self.output_types)
    }

    /// Runs one tick on a frame of input samples and gives the frame of output
    /// samples.
    pub fn update(&mut self, sources: &Vec<i16>) -> (frame: Vec<i16>)
        ensures
            (frame@, final(self)@.rack) == spec_tick(
                old(self)@.rack,
                old(self)@.input_types,
                old(self)@.output_types,
                sources@,
                old(self)@.sample_rate,
            ),
            final(self)@.sample_rate == old(self)@.sample_rate,
            final(self)@.input_types == old(self)@.input_types,
            final(self)@.output_types == old(self)@.output_types,
    {
        let ctx = Context::from_samples(&self.input_types, sources, self.sample_rate);
        self.rack.update(&ctx);
        let ghost started = self.rack@;
        let mut frame: Vec<i16> = Vec::new();
        let mut port: usize = 0;
        while port < self.output_types.len()
            invariant
                port <= self.output_types.len(),
                self.output_types == old(self).output_types,
                self.input_types == old(self).input_types,
                self.sample_rate == old(self).sample_rate,
                spec_render(started, self.output_types@, ctx@, 0, Seq::empty()) == spec_render(
                    self.rack@,
                    self.output_types@,
                    ctx@,
                    port as nat,
                    frame@,
                ),
            decreases self.output_types.len() - port,
        {
            let ty = self.output_types[port];
            let continuous = match ty.kind {
                ValueKind::Continuous => true,
                _ => false,
            };
            if continuous {
                let signal = self.rack.output_in(None, port, &ctx);
                let mut samples = or_zero(&signal, ty.audio_channels() as usize);
                frame.append(&mut samples);
            }
            port += 1;
        }
        frame
    }
}

} // verus!
