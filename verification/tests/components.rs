use octahack::components::{
    AnyInputSpec, AnyOutputSpec, AnyParamSpec, Component, ContextForComponent, ContextMeta,
    RuntimeSpecifier, UiElement,
};
use octahack::octahack_components::amplifier::{Amplifier, AmplifierIO, AMPLIFIER_IO_COUNT};
use octahack::octahack_components::synth::{phase_step, Output, Params, Synth};
use octahack::octahack_components::OctahackComponent;
use octahack::value::{AnyIter, MidiValue, Value, ValueType};

#[test]
fn correct_max_out_size() {
    assert_eq!(
        Amplifier.types().output.len(),
        OctahackComponent::max_output_count()
    );
}

#[test]
fn amplifier_declares_eight_mono_channels() {
    let types = Amplifier.types();
    assert_eq!(types.input.len(), AMPLIFIER_IO_COUNT);
    assert_eq!(types.output.len(), 8);
    assert_eq!(types.parameters.len(), 8);
    assert!(types.output.iter().all(|t| *t == ValueType::mono()));
    assert_eq!(Amplifier.param_default(), vec![Value::zero(); 8]);
}

#[test]
fn amplifier_io_is_a_bijection_with_indices() {
    for channel in 0..8u8 {
        let io = AmplifierIO::new(channel).unwrap();
        assert_eq!(io.id(), channel as usize);
        assert_eq!(AmplifierIO::from_id(io.id()).id(), channel as usize);
        assert_eq!(io.value_type(), ValueType::mono());
    }
    assert!(AmplifierIO::new(8).is_none());
    assert!(AmplifierIO::new(255).is_none());
}

#[test]
fn erased_specifiers_keep_their_index() {
    assert_eq!(AnyInputSpec(5).id(), 5);
    assert_eq!(AnyOutputSpec::from_id(9).id(), 9);
    assert_eq!(AnyParamSpec::from_id(0), AnyParamSpec(0));
    assert_eq!(AnyOutputSpec(3).value_type(), ValueType::continuous());
}

fn amp_ctx(channel: usize, input: Option<AnyIter>, amount: Value) -> ContextForComponent {
    let mut inputs: Vec<Option<AnyIter>> = (0..8).map(|_| None).collect();
    inputs[channel] = input;
    let mut params = vec![Value::zero(); 8];
    params[channel] = amount;
    ContextForComponent::new(inputs, params, 44100)
}

#[test]
fn amplifier_multiplies_each_sample() {
    let half = Value::from_bits(0x4000_0000);
    let input = AnyIter::Analog(vec![half, Value::from_bits(-0x4000_0000), Value::zero()]);
    let ctx = amp_ctx(2, Some(input), half);
    assert_eq!(
        Amplifier.output(AnyOutputSpec(2), &ctx),
        AnyIter::Analog(vec![
            Value::from_bits(0x2000_0000),
            Value::from_bits(-0x2000_0000),
            Value::zero()
        ])
    );
    // another channel has no input
    assert_eq!(Amplifier.output(AnyOutputSpec(3), &ctx), AnyIter::Analog(vec![]));
}

#[test]
fn amplifier_without_signal_is_empty() {
    let ctx = amp_ctx(0, None, Value::max_value());
    assert_eq!(Amplifier.output(AnyOutputSpec(0), &ctx), AnyIter::Analog(vec![]));
    let midi = amp_ctx(0, Some(AnyIter::Midi(vec![MidiValue::NoteOn(60, 100)])), Value::max_value());
    assert_eq!(Amplifier.output(AnyOutputSpec(0), &midi), AnyIter::Analog(vec![]));
    // an output that the amplifier does not have
    let ctx = amp_ctx(0, Some(AnyIter::Analog(vec![Value::max_value()])), Value::max_value());
    assert_eq!(Amplifier.output(AnyOutputSpec(8), &ctx), AnyIter::Analog(vec![]));
}

#[test]
fn amplifier_at_full_amount_is_identity_up_to_one_unit() {
    for bits in [i32::MIN, i32::MIN + 1, -12345, -1, 0, 1, 2, 98765, i32::MAX - 1, i32::MAX] {
        let ctx = amp_ctx(
            0,
            Some(AnyIter::Analog(vec![Value::from_bits(bits)])),
            Value::max_value(),
        );
        match Amplifier.output(AnyOutputSpec(0), &ctx) {
            AnyIter::Analog(out) => {
                assert_eq!(out.len(), 1);
                let got = out[0].to_bits() as i64;
                assert!((got - bits as i64).abs() <= 1, "{} became {}", bits, got);
            }
            AnyIter::Midi(_) => panic!("analog expected"),
        }
    }
}

#[test]
fn amplifier_update_keeps_it() {
    let ctx = amp_ctx(0, None, Value::zero());
    let next = Amplifier.update(&ctx);
    assert_eq!(next.types().input.len(), 8);
    let copy = Amplifier.duplicate();
    assert_eq!(copy.types().output.len(), 8);
}

#[test]
fn names() {
    assert_eq!(Amplifier::name(), "Amplifier");
    assert_eq!(Synth::name(), "Synth");
}

#[test]
fn synth_ports() {
    let types = Synth::new().types();
    assert_eq!(types.input.len(), 0);
    assert_eq!(types.output.len(), 2);
    assert_eq!(types.parameters.len(), 1);
    assert_eq!(Synth::new().param_default(), vec![Value::zero()]);
    assert_eq!(Output::Saw.id(), 0);
    assert_eq!(Output::Square.id(), 1);
    assert_eq!(Output::from_id(1), Output::Square);
    assert_eq!(Output::from_id(0), Output::Saw);
    assert_eq!(Params::Freq.id(), 0);
    assert_eq!(Params::from_id(0), Params::Freq);
}

fn hertz(hz: u32) -> Value {
    Value::from_bits((hz as i64 * 65536 + i32::MIN as i64) as i32)
}

#[test]
fn phase_step_formula() {
    // one cycle per second at one sample per second: a whole cycle, which is no step
    assert_eq!(phase_step(hertz(1), 1), 0);
    // a quarter of the sample rate: a quarter of a cycle per tick
    assert_eq!(phase_step(hertz(11025), 44100), 0x4000_0000);
    assert_eq!(phase_step(hertz(440), 44100), ((440u64 << 32) / 44100) as u32);
    assert_eq!(phase_step(hertz(440), 44100), 42852281);
    assert_eq!(phase_step(Value::min_value(), 44100), 0);
    assert_eq!(phase_step(hertz(440), 0), 0);
    // the largest frequency at the smallest rate wraps round
    assert_eq!(
        phase_step(Value::max_value(), 1),
        ((0xffff_ffffu64 * 65536) % (1u64 << 32)) as u32
    );
}

#[test]
fn synth_moves_by_its_step() {
    let ctx = ContextForComponent::new(vec![], vec![hertz(11025)], 44100);
    assert_eq!(ctx.sample_rate(), 44100);
    let mut synth = Synth::new();
    assert_eq!(synth.tick, 0);
    let mut expected = [0u32, 0x4000_0000, 0x8000_0000, 0xc000_0000, 0, 0x4000_0000].into_iter();
    for _ in 0..6 {
        assert_eq!(synth.tick, expected.next().unwrap());
        synth = synth.update(&ctx);
    }
}

#[test]
fn synth_waves() {
    let ctx = ContextForComponent::new(vec![], vec![Value::zero()], 44100);
    let saw = |tick: u32| Synth { tick }.output(AnyOutputSpec(0), &ctx);
    let square = |tick: u32| Synth { tick }.output(AnyOutputSpec(1), &ctx);
    assert_eq!(saw(0), AnyIter::Analog(vec![Value::max_value()]));
    assert_eq!(saw(1), AnyIter::Analog(vec![Value::from_bits(i32::MAX)]));
    assert_eq!(saw(0x8000_0000), AnyIter::Analog(vec![Value::zero()]));
    assert_eq!(saw(0xffff_ffff), AnyIter::Analog(vec![Value::from_bits(i32::MIN + 1)]));
    assert_eq!(square(0), AnyIter::Analog(vec![Value::max_value()]));
    assert_eq!(square(0x7fff_ffff), AnyIter::Analog(vec![Value::max_value()]));
    assert_eq!(square(0x8000_0000), AnyIter::Analog(vec![Value::min_value()]));
    assert_eq!(square(0xffff_ffff), AnyIter::Analog(vec![Value::min_value()]));
    assert_eq!(Synth { tick: 7 }.output(AnyOutputSpec(2), &ctx), AnyIter::Analog(vec![]));
}

#[test]
fn component_set_dispatches() {
    let amp = OctahackComponent::Amplifier(Amplifier);
    let synth = OctahackComponent::Synth(Synth { tick: 0x8000_0000 });
    assert_eq!(amp.types().output.len(), 8);
    assert_eq!(synth.types().output.len(), 2);
    assert_eq!(amp.param_default().len(), 8);
    assert_eq!(synth.param_default().len(), 1);
    let ctx = ContextForComponent::new(vec![], vec![hertz(11025)], 44100);
    assert_eq!(
        synth.output(AnyOutputSpec(0), &ctx),
        AnyIter::Analog(vec![Value::zero()])
    );
    match synth.update(&ctx) {
        OctahackComponent::Synth(s) => assert_eq!(s.tick, 0xc000_0000),
        OctahackComponent::Amplifier(_) => panic!("a synth stays a synth"),
    }
    match synth.duplicate() {
        OctahackComponent::Synth(s) => assert_eq!(s.tick, 0x8000_0000),
        OctahackComponent::Amplifier(_) => panic!("a synth stays a synth"),
    }
}

#[test]
fn context_for_component_reads() {
    let ctx = ContextForComponent::new(
        vec![None, Some(AnyIter::Analog(vec![Value::from_bits(7)]))],
        vec![Value::from_bits(3)],
        48000,
    );
    assert!(ctx.input(0).is_none());
    assert_eq!(ctx.input(1), Some(&AnyIter::Analog(vec![Value::from_bits(7)])));
    assert!(ctx.input(2).is_none());
    assert_eq!(ctx.param(0), Value::from_bits(3));
    assert_eq!(ctx.param(1), Value::zero());
    assert_eq!(ctx.sample_rate(), 48000);
}
