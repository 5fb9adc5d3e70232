use octahack::components::{AnyInputSpec, AnyOutputSpec, ContextMeta};
use octahack::context::Context;
use octahack::octahack_components::amplifier::{Amplifier, AmplifierIO};
use octahack::octahack_components::OctahackComponent;
use octahack::output::{num_audio_channels, or_zero, AudioStreamer, DEFAULT_SAMPLE_RATE};
use octahack::rack::Rack;
use octahack::value::{AnyIter, MidiValue, Value, ValueKind, ValueType};
use octahack::wire::{WireDst, WireSrc};

fn io(channel: u8) -> AmplifierIO {
    AmplifierIO::new(channel).unwrap()
}

fn sine(n: usize) -> i16 {
    let phase = 2.0 * std::f64::consts::PI * 440.0 * n as f64 / 44100.0;
    (phase.sin() * i16::MAX as f64) as i16
}

#[test]
fn circular_wiring() {
    let mut rack = Rack::<OctahackComponent, AnyInputSpec, AnyOutputSpec>::new();

    let mut func = rack.main_mut();

    let amp = func.push_component(OctahackComponent::Amplifier(Amplifier));
    func.wire(
        WireSrc::rack_input(AnyInputSpec(0)),
        WireDst::component_input(amp, io(0)),
    );
    func.wire(
        WireSrc::component_output(amp, io(0)),
        WireDst::component_input(amp, io(0)),
    );
    func.set_param(amp, io(0), Value::max_value());

    let mut streamer = AudioStreamer::new_unchecked(
        None,
        rack,
        vec![ValueType::mono()],
        vec![ValueType::mono()],
    );

    let mut samples = Vec::new();
    for n in 0..101 {
        assert!(sine(n + 1) != 0 || n % 50 == 49);
        samples.extend(streamer.update(&vec![sine(n)]));
    }

    assert_eq!(
        std::iter::repeat(0).take(100).collect::<Vec<i16>>(),
        samples.into_iter().skip(1).take(100).collect::<Vec<_>>()
    );
}

#[test]
fn streamer_plays_what_goes_through() {
    let mut rack = Rack::<OctahackComponent, AnyInputSpec, AnyOutputSpec>::new();
    let mut main = rack.main_mut();
    let amp = main.push_component(OctahackComponent::Amplifier(Amplifier));
    main.wire(WireSrc::rack_input(AnyInputSpec(1)), WireDst::component_input(amp, io(0)));
    main.wire(WireSrc::component_output(amp, io(0)), WireDst::rack_output(AnyOutputSpec(0)));
    main.wire(WireSrc::rack_input(AnyInputSpec(0)), WireDst::rack_output(AnyOutputSpec(2)));
    main.set_param(amp, io(0), Value::from_bits(0x4000_0000));
    let midi = ValueType { kind: ValueKind::Midi, channels: Some(1) };
    let mut streamer = AudioStreamer::new_unchecked(
        Some(48000),
        rack,
        vec![ValueType::mono(), ValueType::stereo()],
        vec![ValueType::stereo(), midi, ValueType::mono(), ValueType::stereo()],
    );
    assert_eq!(streamer.sample_rate(), 48000);
    assert_eq!(streamer.input_channels(), 3);
    assert_eq!(streamer.channels(), 5);
    // input 0 is the first sample, input 1 the two after it
    let frame = streamer.update(&vec![100, 2000, -3000]);
    // output 0: the halved stereo input; output 1 is no audio; output 2: input
    // 0; output 3 is unwired and silent on both of its channels
    assert_eq!(frame, vec![1000, -1500, 100, 0, 0]);
    let frame = streamer.update(&vec![-1, 3, 5]);
    assert_eq!(frame, vec![1, 2, -1, 0, 0]);
    // a frame that is too short: input 1 has nothing, and output 0 is filled up
    let frame = streamer.update(&vec![7]);
    assert_eq!(frame, vec![0, 0, 7, 0, 0]);
}

#[test]
fn streamer_checks_the_source() {
    // three channels go in, two come out
    let make = |rate: Option<u32>, source_rate: u32, channels: u16| {
        AudioStreamer::new(
            rate,
            Rack::<OctahackComponent, AnyInputSpec, AnyOutputSpec>::new(),
            vec![ValueType::stereo(), ValueType::mono()],
            vec![ValueType::mono(), ValueType::mono()],
            source_rate,
            channels,
        )
    };
    // the source has to have as many channels as the outputs give
    assert!(make(None, 44100, 2).is_some());
    assert_eq!(make(None, DEFAULT_SAMPLE_RATE, 2).unwrap().sample_rate(), 44100);
    assert!(make(Some(48000), 48000, 2).is_some());
    assert!(make(None, 48000, 2).is_none());
    assert!(make(Some(48000), 44100, 2).is_none());
    assert!(make(None, 44100, 3).is_none());
    assert!(make(None, 44100, 1).is_none());
    assert!(make(None, 44100, 0).is_none());
    // no inputs and one mono output: a source without channels does not fit
    let bare = |channels: u16| {
        AudioStreamer::new(
            None,
            Rack::<OctahackComponent, AnyInputSpec, AnyOutputSpec>::new(),
            vec![],
            vec![ValueType::mono()],
            44100,
            channels,
        )
    };
    assert!(bare(0).is_none());
    assert!(bare(1).is_some());
}

#[test]
fn audio_channels_are_counted() {
    assert_eq!(num_audio_channels(&vec![]), 0);
    assert_eq!(num_audio_channels(&vec![ValueType::mono()]), 1);
    assert_eq!(
        num_audio_channels(&vec![
            ValueType::stereo(),
            ValueType { kind: ValueKind::Midi, channels: Some(9) },
            ValueType::continuous(),
            ValueType { kind: ValueKind::Binary, channels: Some(1) },
            ValueType { kind: ValueKind::Continuous, channels: Some(255) },
        ]),
        257
    );
}

#[test]
fn or_zero_fills_up() {
    let two = Some(AnyIter::Analog(vec![Value::from_bits(0x0003_0000), Value::from_bits(-1)]));
    assert_eq!(or_zero(&two, 0), vec![3, -1]);
    assert_eq!(or_zero(&two, 2), vec![3, -1]);
    assert_eq!(or_zero(&two, 4), vec![3, -1, 0, 0]);
    assert_eq!(or_zero(&None, 0), Vec::<i16>::new());
    assert_eq!(or_zero(&None, 3), vec![0, 0, 0]);
    assert_eq!(or_zero(&Some(AnyIter::Midi(vec![MidiValue::NoteOn(1, 1)])), 1), vec![0]);
    assert_eq!(
        or_zero(&Some(AnyIter::Analog(vec![Value::max_value(), Value::min_value()])), 1),
        vec![i16::MAX, i16::MIN]
    );
}

#[test]
fn frames_become_inputs() {
    let types = vec![
        ValueType::mono(),
        ValueType { kind: ValueKind::Midi, channels: Some(1) },
        ValueType::stereo(),
        ValueType::mono(),
    ];
    let ctx = Context::from_samples(&types, &vec![1, -2, 3], 22050);
    assert_eq!(ctx.rate(), 22050);
    assert_eq!(ctx.sample_rate(), 22050);
    assert_eq!(ctx.input(0), Some(AnyIter::Analog(vec![Value::from_bits(0x1_0000)])));
    // a port without audio channels gets an empty signal
    assert_eq!(ctx.input(1), Some(AnyIter::Analog(vec![])));
    assert_eq!(
        ctx.input(2),
        Some(AnyIter::Analog(vec![Value::from_bits(-0x2_0000), Value::from_bits(0x3_0000)]))
    );
    // the frame has no sample left for the last port
    assert_eq!(ctx.input(3), None);
    assert_eq!(ctx.input(4), None);
    let plain = Context::new(vec![None, Some(AnyIter::Midi(vec![]))], 1);
    assert_eq!(plain.input(0), None);
    assert_eq!(plain.input(1), Some(AnyIter::Midi(vec![])));
    assert_eq!(plain.input(2), None);
}
