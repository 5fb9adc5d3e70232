//! What the host hands to the engine for each tick.

use crate::components::{signals_view, ContextMeta, SpecId};
use crate::eval::HostView;
use crate::params::spec_get;
use crate::value::{duplicate_opt, opt_signal, AnyIter, Signal, Value, ValueType};
use vstd::prelude::*;

verus! {

/// The host's side of a tick: the signal on each input of the top-level
/// definition, where the host has one, and the sample rate.
pub struct Context {
    inputs: Vec<Option<AnyIter>>,
    sample_rate: u32,
}

impl View for Context {
    type V = HostView;

    closed spec fn view(&self) -> HostView {
        HostView { inputs: signals_view(self.inputs@), sample_rate: self.sample_rate }
    }
}

impl Context {
    pub fn new(inputs: Vec<Option<AnyIter>>, sample_rate: u32) -> (ctx: Context)
        ensures
            ctx@ == (HostView { inputs: signals_view(inputs@), sample_rate }),
    {
        Context { inputs, sample_rate }
    }

    /// The signal on an input. `None` means that the host has nothing for it.
    pub fn input(&self, spec: SpecId) -> (signal: Option<AnyIter>)
        ensures
            opt_signal(signal) == spec_get(self@.inputs, spec as int),
    {
        if spec < self.inputs.len() {
            duplicate_opt(&self.inputs[spec])
        } else {
            None
        }
    }

    /// Samples per second.
    pub fn rate(&self) -> (rate: u32)
        ensures
            rate == self@.sample_rate,
    {
        self.sample_rate
    }
}

impl ContextMeta for Context {
    closed spec fn spec_sample_rate(&self) -> u32 {
        self.sample_rate
    }

    fn sample_rate(&self) -> (rate: u32) {
        self.sample_rate
    }
}


/// How many samples the ports before the `port`th carry per tick, all
/// together: where in a frame of samples the samples of that port begin.
pub open spec fn spec_channel_offset(types: Seq<ValueType>, port: int) -> nat
    decreases port,
{
    if port <= 0 {
        0
    } else {
        spec_channel_offset(types, port - 1) + types[port - 1].spec_audio_channels()
    }
}

/// The samples of a frame, from the `from`th up to the `to`th, as values.
pub open spec fn spec_frame_values(sources: Seq<i16>, from: int, to: int) -> Seq<Value> {
    Seq::new((to - from) as nat, |i: int| Value { bits: (sources[from + i] * 0x1_0000) as i32 })
}

/// What a frame of samples holds for a port: its samples, one for each of its
/// channels, where the frame is long enough for them.
pub open spec fn spec_frame_signal(types: Seq<ValueType>, sources: Seq<i16>, port: int) -> Option<
    Signal,
> {
    let from = spec_channel_offset(types, port);
    let to = from + types[port].spec_audio_channels();
    if to <= sources.len() {
        Some(Signal::Analog(spec_frame_values(sources, from as int, to as int)))
    } else {
        None
    }
}

/// What a frame of samples holds for each port.
pub open spec fn spec_frame_inputs(types: Seq<ValueType>, sources: Seq<i16>) -> Seq<
    Option<Signal>,
> {
    Seq::new(types.len(), |port: int| spec_frame_signal(types, sources, port))
}

/// At most 255 samples go to each port.
proof fn lemma_channel_offset_bound(types: Seq<ValueType>, port: int)
    requires
        0 <= port,
    ensures
        spec_channel_offset(types, port) <= 255 * port,
    decreases port,
{
    if port > 0 {
        lemma_channel_offset_bound(types, port - 1);
    }
}

/// The samples of a frame from `from` up to `to`, as a signal.
fn frame_values(sources: &Vec<i16>, from: usize, to: usize) -> (values: Vec<Value>)
    requires
        from <= to <= sources@.len(),
    ensures
        values@ == spec_frame_values(sources@, from as int, to as int),
{
    let mut values: Vec<Value> = Vec::new();
    let mut i: usize = from;
    while i < to
        invariant
            from <= i <= to,
            to <= sources@.len(),
            values@ == spec_frame_values(sources@, from as int, i as int),
        decreases to - i,
    {
        values.push(Value::from_sample(sources[i]));
        assert(values@ =~= spec_frame_values(sources@, from as int, i + 1));
        i += 1;
    }
    values
}

impl Context {
    /// The context of a tick for which the host has one frame of samples: the
    /// ports take their samples from the frame in their order, each as many as
    /// it has channels.
    pub fn from_samples(types: &Vec<ValueType>, sources: &Vec<i16>, sample_rate: u32) -> (ctx:
        Context)
        ensures
            ctx@ == (HostView { inputs: spec_frame_inputs(types@, sources@), sample_rate }),
    {
        let mut inputs: Vec<Option<AnyIter>> = Vec::new();
        let mut offset: u128 = 0;
        let mut port: usize = 0;
        while port < types.len()
            invariant
                port <= types.len(),
                offset == spec_channel_offset(types@, port as int),
                inputs@.len() == port,
                forall|k: int|
                    0 <= k < port ==> opt_signal(#[trigger] inputs@[k]) == spec_frame_signal(
                        types@,
                        sources@,
                        k,
                    ),
            decreases types.len() - port,
        {
            proof {
                lemma_channel_offset_bound(types@, port as int);
            }
            let channels = types[port].audio_channels();
            let end: u128 = offset + channels as u128;
            if end <= sources.len() as u128 {
                let values = frame_values(sources, offset as usize, end as usize);
                inputs.push(Some(AnyIter::Analog(values)));
            } else {
                inputs.push(None);
            }
            offset = end;
            port += 1;
        }
        assert(signals_view(inputs@) =~= spec_frame_inputs(types@, sources@));
        Context { inputs, sample_rate }
    }
}

} // verus!
