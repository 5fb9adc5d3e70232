use octahack::components::{AnyInputSpec, AnyOutputSpec, AnyParamSpec};
use octahack::context::Context;
use octahack::octahack_components::amplifier::{Amplifier, AmplifierIO};
use octahack::octahack_components::synth::{phase_step, Output, Params, Synth};
use octahack::octahack_components::{OctahackComponent, OctahackInput, OctahackOutput};
use octahack::params::blend;
use octahack::rack::Rack;
use octahack::uid::{ComponentId, Uid};
use octahack::value::{AnyIter, MidiValue, Value};
use octahack::wire::{WireDst, WireSrc};

type TestRack = Rack<OctahackComponent, AnyInputSpec, AnyOutputSpec>;

fn v(bits: i32) -> Value {
    Value::from_bits(bits)
}

fn io(channel: u8) -> AmplifierIO {
    AmplifierIO::new(channel).unwrap()
}

fn amp() -> OctahackComponent {
    OctahackComponent::Amplifier(Amplifier)
}

fn one(value: Value) -> Option<AnyIter> {
    Some(AnyIter::Analog(vec![value]))
}

fn host(values: &[i32]) -> Context {
    Context::new(values.iter().map(|b| one(v(*b))).collect(), 44100)
}

#[test]
fn get_rack_output() {
    let mut rack = TestRack::new();
    let mut main = rack.main_mut();
    let amp = main.push_component(amp());
    main.wire(
        WireSrc::rack_input(AnyInputSpec(0)),
        WireDst::component_input(amp, io(0)),
    );
    main.wire(
        WireSrc::component_output(amp, io(0)),
        WireDst::rack_output(AnyOutputSpec(0)),
    );

    let context = Context::new(
        vec![one(Value::max_value()), Some(AnyIter::Midi(vec![]))],
        44100,
    );

    rack.update(&context);
    assert_eq!(rack.output(AnyOutputSpec(0), &context), one(Value::zero()));
}

#[test]
fn no_wires_and_no_nodes_give_no_value() {
    let mut rack = TestRack::new();
    let ctx = host(&[5, 6, 7]);
    for port in 0..4 {
        assert_eq!(rack.output(AnyOutputSpec(port), &ctx), None);
    }
    rack.update(&ctx);
    for port in 0..4 {
        assert_eq!(rack.output(AnyOutputSpec(port), &ctx), None);
    }
    assert_eq!(rack.output(AnyOutputSpec(usize::MAX), &ctx), None);
    assert!(rack.main_mut().def().statements.is_empty());
}

fn passthrough_rack() -> (TestRack, ComponentId) {
    let mut rack = TestRack::new();
    let mut main = rack.main_mut();
    let a = main.push_component(amp());
    main.wire(WireSrc::rack_input(AnyInputSpec(0)), WireDst::component_input(a, io(0)));
    main.wire(WireSrc::component_output(a, io(0)), WireDst::rack_output(AnyOutputSpec(0)));
    main.set_param(a, io(0), Value::max_value());
    (rack, a)
}

#[test]
fn direct_passthrough() {
    let (mut rack, _) = passthrough_rack();
    for bits in [i32::MIN, -0x4000_0000, -3, -1, 0, 1, 2, 0x1234_5678, i32::MAX] {
        let ctx = host(&[bits]);
        rack.update(&ctx);
        let out = rack.output(AnyOutputSpec(0), &ctx);
        assert_eq!(out, one(v(bits).saturating_mul(Value::max_value())));
        match out {
            Some(AnyIter::Analog(s)) => {
                assert!((s[0].to_bits() as i64 - bits as i64).abs() <= 1);
            }
            _ => panic!("a sample expected"),
        }
    }
    // exact values: positive samples lose one unit, the smallest gains one
    let ctx = host(&[1000]);
    rack.update(&ctx);
    assert_eq!(rack.output(AnyOutputSpec(0), &ctx), one(v(999)));
    let ctx = host(&[-1000]);
    rack.update(&ctx);
    assert_eq!(rack.output(AnyOutputSpec(0), &ctx), one(v(-1000)));
    let ctx = host(&[i32::MIN]);
    rack.update(&ctx);
    assert_eq!(rack.output(AnyOutputSpec(0), &ctx), one(v(i32::MIN + 1)));
}

#[test]
fn passthrough_keeps_every_channel_of_the_signal() {
    let (mut rack, _) = passthrough_rack();
    let ctx = Context::new(vec![Some(AnyIter::Analog(vec![v(10), v(-20), v(0)]))], 44100);
    rack.update(&ctx);
    assert_eq!(
        rack.output(AnyOutputSpec(0), &ctx),
        Some(AnyIter::Analog(vec![v(9), v(-20), v(0)]))
    );
}

#[test]
fn absent_input_is_not_zero() {
    let (mut rack, _) = passthrough_rack();
    // the host has nothing for the input: the amplifier has no samples to give
    let ctx = Context::new(vec![None], 44100);
    rack.update(&ctx);
    assert_eq!(rack.output(AnyOutputSpec(0), &ctx), Some(AnyIter::Analog(vec![])));
    let ctx = Context::new(vec![], 44100);
    rack.update(&ctx);
    assert_eq!(rack.output(AnyOutputSpec(0), &ctx), Some(AnyIter::Analog(vec![])));
    // an unwired rack output has no value at all
    assert_eq!(rack.output(AnyOutputSpec(1), &ctx), None);
}

#[test]
fn rack_input_straight_to_rack_output() {
    let mut rack = TestRack::new();
    rack.main_mut()
        .wire(WireSrc::rack_input(AnyInputSpec(1)), WireDst::rack_output(AnyOutputSpec(2)));
    let ctx = Context::new(
        vec![one(v(1)), Some(AnyIter::Midi(vec![MidiValue::NoteOff(1, 2)]))],
        44100,
    );
    rack.update(&ctx);
    assert_eq!(
        rack.output(AnyOutputSpec(2), &ctx),
        Some(AnyIter::Midi(vec![MidiValue::NoteOff(1, 2)]))
    );
    assert_eq!(rack.output(AnyOutputSpec(0), &ctx), None);
}

#[test]
fn self_feedback_from_silence_stays_silent() {
    let mut rack = TestRack::new();
    let mut main = rack.main_mut();
    let a = main.push_component(amp());
    main.wire(WireSrc::rack_input(AnyInputSpec(0)), WireDst::component_input(a, io(0)));
    main.wire(WireSrc::component_output(a, io(0)), WireDst::component_input(a, io(0)));
    main.wire(WireSrc::component_output(a, io(0)), WireDst::rack_output(AnyOutputSpec(0)));
    main.set_param(a, io(0), Value::max_value());
    for tick in 0..100 {
        let ctx = host(&[1_000_000 + tick]);
        rack.update(&ctx);
        assert_eq!(rack.output(AnyOutputSpec(0), &ctx), one(Value::zero()));
    }
}

#[test]
fn feedback_is_one_tick_late() {
    // Channel 0 multiplies the rack's input by an amount that is blended from a
    // natural value and the output of channel 1. Channel 1 carries the output
    // of channel 0, which is being computed when channel 1 asks for it: so it
    // carries what channel 0 gave in the tick before.
    let mut rack = TestRack::new();
    let mut main = rack.main_mut();
    let a = main.push_component(amp());
    let natural = v(0x4000_0000);
    let amount = v(0);
    main.wire(WireSrc::rack_input(AnyInputSpec(0)), WireDst::component_input(a, io(0)));
    main.set_param(a, io(0), natural);
    main.wire(WireSrc::component_output(a, io(1)), WireDst::component_param(a, io(0), amount));
    main.wire(WireSrc::component_output(a, io(0)), WireDst::component_input(a, io(1)));
    main.set_param(a, io(1), Value::max_value());
    main.wire(WireSrc::component_output(a, io(0)), WireDst::rack_output(AnyOutputSpec(0)));

    let inputs = [0x7000_0000, 0x6000_0000, -0x5000_0000, 0x1234_5678, 0x7fff_ffff, 3];
    let mut previous = Value::zero();
    let mut seen = Vec::new();
    for x in inputs {
        let ctx = host(&[x]);
        rack.update(&ctx);
        let channel_one = previous.saturating_mul(Value::max_value());
        let expected = v(x).saturating_mul(blend(natural, channel_one, amount));
        assert_eq!(rack.output(AnyOutputSpec(0), &ctx), one(expected));
        previous = expected;
        seen.push(expected);
    }
    // the first tick has nothing before it: channel 1 carried silence
    assert_eq!(seen[0], v(0x7000_0000).saturating_mul(blend(natural, Value::zero(), amount)));
    assert_eq!(seen[0], v(0x1c00_0000));
    assert!(seen.windows(2).any(|w| w[0] != w[1]));
}

#[test]
fn output_is_memoized_within_a_tick() {
    let (mut rack, _) = passthrough_rack();
    let ctx = host(&[123_456]);
    rack.update(&ctx);
    let first = rack.output(AnyOutputSpec(0), &ctx);
    let second = rack.output(AnyOutputSpec(0), &ctx);
    assert_eq!(first, second);
    assert_eq!(first, one(v(123_455)));
    // what was computed is kept for the tick: another host input does not
    // change the answer until the next update
    let other = host(&[-999]);
    assert_eq!(rack.output(AnyOutputSpec(0), &other), first);
    rack.update(&other);
    assert_eq!(rack.output(AnyOutputSpec(0), &other), one(v(-999)));
}

#[test]
fn wiring_twice_leaves_the_second_wire() {
    let mut rack = TestRack::new();
    let mut main = rack.main_mut();
    let a = main.push_component(amp());
    main.set_param(a, io(0), Value::max_value());
    main.wire(WireSrc::component_output(a, io(0)), WireDst::rack_output(AnyOutputSpec(0)));
    main.wire(WireSrc::rack_input(AnyInputSpec(0)), WireDst::component_input(a, io(0)));
    main.wire(WireSrc::rack_input(AnyInputSpec(1)), WireDst::component_input(a, io(0)));
    let ctx = host(&[1000, 50_000]);
    rack.update(&ctx);
    // only the second input arrives, and it is not added to the first
    assert_eq!(rack.output(AnyOutputSpec(0), &ctx), one(v(49_999)));

    // the same at an output of the rack
    let mut main = rack.main_mut();
    main.wire(WireSrc::rack_input(AnyInputSpec(0)), WireDst::rack_output(AnyOutputSpec(3)));
    main.wire(WireSrc::rack_input(AnyInputSpec(1)), WireDst::rack_output(AnyOutputSpec(3)));
    rack.update(&ctx);
    assert_eq!(rack.output(AnyOutputSpec(3), &ctx), one(v(50_000)));

    // and at a parameter
    let mut main = rack.main_mut();
    main.wire(
        WireSrc::rack_input(AnyInputSpec(0)),
        WireDst::component_param(a, io(0), Value::max_value()),
    );
    main.wire(
        WireSrc::rack_input(AnyInputSpec(1)),
        WireDst::component_param(a, io(0), Value::max_value()),
    );
    rack.update(&ctx);
    assert_eq!(
        rack.output(AnyOutputSpec(0), &ctx),
        one(v(50_000).saturating_mul(v(50_000)))
    );
}

fn modulated_rack(amount: Value, natural: Value) -> TestRack {
    let mut rack = TestRack::new();
    let mut main = rack.main_mut();
    let a = main.push_component(amp());
    main.wire(WireSrc::rack_input(AnyInputSpec(0)), WireDst::component_input(a, io(0)));
    main.wire(WireSrc::component_output(a, io(0)), WireDst::rack_output(AnyOutputSpec(0)));
    main.set_param(a, io(0), natural);
    main.wire(
        WireSrc::rack_input(AnyInputSpec(1)),
        WireDst::component_param(a, io(0), amount),
    );
    rack
}

#[test]
fn parameter_blending_boundary() {
    let x = v(0x4000_0000);
    for natural in [v(0), v(0x2000_0000), Value::max_value(), Value::min_value()] {
        for source in [v(0), v(0x6000_0000), v(-0x1000_0000), Value::max_value()] {
            let ctx = Context::new(vec![one(x), one(source)], 44100);
            // at the smallest amount the natural value stands
            let mut rack = modulated_rack(Value::min_value(), natural);
            rack.update(&ctx);
            assert_eq!(rack.output(AnyOutputSpec(0), &ctx), one(x.saturating_mul(natural)));
            // at the largest amount the source stands
            let mut rack = modulated_rack(Value::max_value(), natural);
            rack.update(&ctx);
            assert_eq!(rack.output(AnyOutputSpec(0), &ctx), one(x.saturating_mul(source)));
        }
    }
}

#[test]
fn parameter_source_is_averaged_over_its_channels() {
    let x = v(0x4000_0000);
    let ctx = Context::new(
        vec![one(x), Some(AnyIter::Analog(vec![v(0x1000_0000), v(0x3000_0000)]))],
        44100,
    );
    let mut rack = modulated_rack(Value::max_value(), v(5));
    rack.update(&ctx);
    assert_eq!(rack.output(AnyOutputSpec(0), &ctx), one(v(0x1000_0000)));
    // the host has nothing for the source: the natural value stands
    let ctx = Context::new(vec![one(x)], 44100);
    let mut rack = modulated_rack(Value::max_value(), v(0x2000_0000));
    rack.update(&ctx);
    assert_eq!(rack.output(AnyOutputSpec(0), &ctx), one(v(0x1000_0000)));
}

#[test]
fn set_param_keeps_the_wire() {
    let mut rack = modulated_rack(Value::min_value(), v(0x2000_0000));
    let a = rack.main_mut().def().statements[0];
    rack.main_mut().set_param(a, io(0), v(0x4000_0000));
    let ctx = Context::new(vec![one(v(0x4000_0000)), one(Value::max_value())], 44100);
    rack.update(&ctx);
    assert_eq!(rack.output(AnyOutputSpec(0), &ctx), one(v(0x2000_0000)));
    // the wire is still there: rewiring with the full amount shows the source
    rack.main_mut().wire(
        WireSrc::rack_input(AnyInputSpec(1)),
        WireDst::component_param(a, AnyParamSpec(0), Value::max_value()),
    );
    rack.update(&ctx);
    assert_eq!(
        rack.output(AnyOutputSpec(0), &ctx),
        one(v(0x4000_0000).saturating_mul(Value::max_value()))
    );
}

#[test]
fn a_wire_to_a_node_that_never_was_brings_nothing() {
    let mut rack = TestRack::new();
    let ghost = ComponentId(Uid(12345));
    rack.main_mut().wire(
        WireSrc::component_output(ghost, AnyOutputSpec(0)),
        WireDst::rack_output(AnyOutputSpec(0)),
    );
    let ctx = host(&[1]);
    rack.update(&ctx);
    assert_eq!(rack.output(AnyOutputSpec(0), &ctx), None);
}

#[test]
fn chain_of_two_amplifiers() {
    let mut rack = TestRack::new();
    let mut main = rack.main_mut();
    let a = main.push_component(amp());
    let b = main.push_component(amp());
    assert_ne!(a, b);
    assert_eq!(main.def().statements, vec![a, b]);
    let half = v(0x4000_0000);
    main.set_param(a, io(3), half);
    main.set_param(b, io(5), half);
    main.wire(WireSrc::rack_input(AnyInputSpec(0)), WireDst::component_input(a, io(3)));
    main.wire(WireSrc::component_output(a, io(3)), WireDst::component_input(b, io(5)));
    main.wire(WireSrc::component_output(b, io(5)), WireDst::rack_output(AnyOutputSpec(0)));
    main.wire(WireSrc::component_output(a, io(3)), WireDst::rack_output(AnyOutputSpec(1)));
    let ctx = host(&[0x4000_0000]);
    rack.update(&ctx);
    assert_eq!(rack.output(AnyOutputSpec(0), &ctx), one(v(0x1000_0000)));
    assert_eq!(rack.output(AnyOutputSpec(1), &ctx), one(v(0x2000_0000)));
}

#[test]
fn two_nodes_in_a_cycle_end_on_the_previous_tick() {
    // a feeds b and b feeds a; the rack reads a
    let mut rack = TestRack::new();
    let mut main = rack.main_mut();
    let a = main.push_component(amp());
    let b = main.push_component(amp());
    main.set_param(a, io(0), Value::max_value());
    main.set_param(b, io(0), Value::max_value());
    main.wire(WireSrc::component_output(b, io(0)), WireDst::component_input(a, io(0)));
    main.wire(WireSrc::component_output(a, io(0)), WireDst::component_input(b, io(0)));
    main.wire(WireSrc::component_output(a, io(0)), WireDst::rack_output(AnyOutputSpec(0)));
    main.wire(WireSrc::component_output(b, io(0)), WireDst::rack_output(AnyOutputSpec(1)));
    let ctx = host(&[]);
    for _ in 0..5 {
        rack.update(&ctx);
        assert_eq!(rack.output(AnyOutputSpec(0), &ctx), one(Value::zero()));
        assert_eq!(rack.output(AnyOutputSpec(1), &ctx), one(Value::zero()));
    }
}

#[test]
fn tokens_are_never_reused() {
    let mut rack = TestRack::new();
    let mut seen = std::collections::HashSet::new();
    for round in 0..300 {
        let id = if round % 3 == 0 {
            rack.new_func().0
        } else {
            rack.main_mut().push_component(amp()).0
        };
        assert!(seen.insert(id), "token {:?} came twice", id);
    }
    assert_eq!(rack.main_mut().def().statements.len(), 200);
}

fn hertz(hz: u32) -> Value {
    Value::from_bits((hz as i64 * 65536 + i32::MIN as i64) as i32)
}

fn saw_of(tick: u32) -> Value {
    if tick == 0 {
        Value::max_value()
    } else {
        v((0x8000_0000i64 - tick as i64) as i32)
    }
}

#[test]
fn independent_instantiation() {
    let mut rack = TestRack::new();
    // an oscillator whose frequency is the definition's input 0
    let osc = rack.new_func();
    let mut func = rack.func_mut(osc);
    let synth = func.push_component(OctahackComponent::Synth(Synth::new()));
    func.wire(
        WireSrc::rack_input(AnyInputSpec(0)),
        WireDst::component_param(synth, Params::Freq, Value::max_value()),
    );
    func.wire(
        WireSrc::component_output(synth, Output::Saw),
        WireDst::rack_output(AnyOutputSpec(0)),
    );
    func.wire(
        WireSrc::component_output(synth, Output::Square),
        WireDst::rack_output(AnyOutputSpec(1)),
    );

    let mut main = rack.main_mut();
    let first = main.push_function_call(osc);
    let second = main.push_function_call(osc);
    assert_ne!(first, second);
    main.wire(WireSrc::rack_input(AnyInputSpec(0)), WireDst::component_input(first, AnyInputSpec(0)));
    main.wire(WireSrc::rack_input(AnyInputSpec(1)), WireDst::component_input(second, AnyInputSpec(0)));
    main.wire(WireSrc::component_output(first, AnyOutputSpec(0)), WireDst::rack_output(AnyOutputSpec(0)));
    main.wire(WireSrc::component_output(second, AnyOutputSpec(0)), WireDst::rack_output(AnyOutputSpec(1)));
    main.wire(WireSrc::component_output(second, AnyOutputSpec(1)), WireDst::rack_output(AnyOutputSpec(2)));

    let slow = hertz(440);
    let fast = hertz(11025);
    let ctx = Context::new(vec![one(slow), one(fast)], 44100);
    let slow_step = phase_step(slow, 44100);
    let fast_step = phase_step(fast, 44100);
    assert_ne!(slow_step, fast_step);
    let mut slow_tick = 0u32;
    let mut fast_tick = 0u32;
    for _ in 0..10 {
        rack.update(&ctx);
        slow_tick = slow_tick.wrapping_add(slow_step);
        fast_tick = fast_tick.wrapping_add(fast_step);
        assert_eq!(rack.output(AnyOutputSpec(0), &ctx), one(saw_of(slow_tick)));
        assert_eq!(rack.output(AnyOutputSpec(1), &ctx), one(saw_of(fast_tick)));
        let square = if fast_tick < 0x8000_0000 { Value::max_value() } else { Value::min_value() };
        assert_eq!(rack.output(AnyOutputSpec(2), &ctx), one(square));
    }
    assert_eq!(fast_tick, 0x8000_0000);
    assert_eq!(slow_tick, 428_522_810);

    // the definition's own node did not move: run on its own, the definition
    // starts from the beginning, with the host's input 0 as its frequency
    let mut func = rack.func_mut(osc);
    assert_eq!(func.output(AnyOutputSpec(0), &ctx), one(saw_of(0)));
    func.update(&ctx);
    assert_eq!(func.output(AnyOutputSpec(0), &ctx), one(saw_of(slow_step)));
    // and the calls in the top-level definition are where they were
    assert_eq!(rack.output(AnyOutputSpec(1), &ctx), one(saw_of(fast_tick)));
    rack.update(&ctx);
    assert_eq!(
        rack.output(AnyOutputSpec(1), &ctx),
        one(saw_of(fast_tick.wrapping_add(fast_step)))
    );
}

#[test]
fn a_call_starts_from_the_state_of_its_definition_at_that_time() {
    let mut rack = TestRack::new();
    let osc = rack.new_func();
    let mut func = rack.func_mut(osc);
    let synth = func.push_component(OctahackComponent::Synth(Synth { tick: 1000 }));
    func.set_param(synth, Params::Freq, hertz(11025));
    func.wire(
        WireSrc::component_output(synth, Output::Saw),
        WireDst::rack_output(AnyOutputSpec(0)),
    );
    let ctx = host(&[]);
    func.update(&ctx);
    let call = rack.main_mut().push_function_call(osc);
    rack.main_mut().wire(
        WireSrc::component_output(call, AnyOutputSpec(0)),
        WireDst::rack_output(AnyOutputSpec(0)),
    );
    assert_eq!(rack.output(AnyOutputSpec(0), &ctx), one(saw_of(0x4000_0000 + 1000)));
    rack.update(&ctx);
    assert_eq!(rack.output(AnyOutputSpec(0), &ctx), one(saw_of(0x8000_0000 + 1000)));
}

#[test]
fn nested_calls_have_state_of_their_own() {
    let mut rack = TestRack::new();
    let inner = rack.new_func();
    let mut func = rack.func_mut(inner);
    let synth = func.push_component(OctahackComponent::Synth(Synth::new()));
    func.wire(
        WireSrc::rack_input(AnyInputSpec(0)),
        WireDst::component_param(synth, Params::Freq, Value::max_value()),
    );
    func.wire(
        WireSrc::component_output(synth, Output::Saw),
        WireDst::rack_output(AnyOutputSpec(0)),
    );
    let outer = rack.new_func();
    let mut func = rack.func_mut(outer);
    let inner_call = func.push_function_call(inner);
    func.wire(
        WireSrc::rack_input(AnyInputSpec(0)),
        WireDst::component_input(inner_call, AnyInputSpec(0)),
    );
    func.wire(
        WireSrc::component_output(inner_call, AnyOutputSpec(0)),
        WireDst::rack_output(AnyOutputSpec(0)),
    );
    let mut main = rack.main_mut();
    let one_call = main.push_function_call(outer);
    let two_call = main.push_function_call(outer);
    main.wire(WireSrc::rack_input(AnyInputSpec(0)), WireDst::component_input(one_call, AnyInputSpec(0)));
    main.wire(WireSrc::rack_input(AnyInputSpec(1)), WireDst::component_input(two_call, AnyInputSpec(0)));
    main.wire(WireSrc::component_output(one_call, AnyOutputSpec(0)), WireDst::rack_output(AnyOutputSpec(0)));
    main.wire(WireSrc::component_output(two_call, AnyOutputSpec(0)), WireDst::rack_output(AnyOutputSpec(1)));

    let ctx = Context::new(vec![one(hertz(11025)), one(hertz(441))], 44100);
    let step = phase_step(hertz(441), 44100);
    for tick in 1..=6u32 {
        rack.update(&ctx);
        assert_eq!(
            rack.output(AnyOutputSpec(0), &ctx),
            one(saw_of(0x4000_0000u32.wrapping_mul(tick)))
        );
        assert_eq!(rack.output(AnyOutputSpec(1), &ctx), one(saw_of(step.wrapping_mul(tick))));
    }
}

#[test]
fn a_call_passes_its_input_through() {
    let mut rack = TestRack::new();
    let through = rack.new_func();
    rack.func_mut(through)
        .wire(WireSrc::rack_input(AnyInputSpec(2)), WireDst::rack_output(AnyOutputSpec(1)));
    let mut main = rack.main_mut();
    let call = main.push_function_call(through);
    main.wire(WireSrc::rack_input(AnyInputSpec(0)), WireDst::component_input(call, AnyInputSpec(2)));
    main.wire(WireSrc::component_output(call, AnyOutputSpec(1)), WireDst::rack_output(AnyOutputSpec(0)));
    main.wire(WireSrc::component_output(call, AnyOutputSpec(0)), WireDst::rack_output(AnyOutputSpec(1)));
    let ctx = host(&[4242]);
    rack.update(&ctx);
    assert_eq!(rack.output(AnyOutputSpec(0), &ctx), one(v(4242)));
    // the definition has no wire into its output 0
    assert_eq!(rack.output(AnyOutputSpec(1), &ctx), None);
}

#[test]
fn a_cycle_of_wires_alone_ends() {
    let mut rack = TestRack::new();
    let through = rack.new_func();
    rack.func_mut(through)
        .wire(WireSrc::rack_input(AnyInputSpec(0)), WireDst::rack_output(AnyOutputSpec(0)));
    let mut main = rack.main_mut();
    let call = main.push_function_call(through);
    // the call's input is the call's own output
    main.wire(
        WireSrc::component_output(call, AnyOutputSpec(0)),
        WireDst::component_input(call, AnyInputSpec(0)),
    );
    main.wire(WireSrc::component_output(call, AnyOutputSpec(0)), WireDst::rack_output(AnyOutputSpec(0)));
    let ctx = host(&[1]);
    for _ in 0..3 {
        rack.update(&ctx);
        assert_eq!(rack.output(AnyOutputSpec(0), &ctx), one(Value::zero()));
    }
}

#[test]
fn a_definition_that_calls_itself_ends() {
    let mut rack = TestRack::new();
    let f = rack.new_func();
    let mut func = rack.func_mut(f);
    let synth = func.push_component(OctahackComponent::Synth(Synth::new()));
    func.set_param(synth, Params::Freq, hertz(11025));
    let again = func.push_function_call(f);
    func.wire(
        WireSrc::component_output(again, AnyOutputSpec(0)),
        WireDst::rack_output(AnyOutputSpec(0)),
    );
    let call = rack.main_mut().push_function_call(f);
    rack.main_mut().wire(
        WireSrc::component_output(call, AnyOutputSpec(0)),
        WireDst::rack_output(AnyOutputSpec(0)),
    );
    let ctx = host(&[]);
    rack.update(&ctx);
    // every level asks the next one, until the nesting is as deep as there are
    // definitions
    assert_eq!(rack.output(AnyOutputSpec(0), &ctx), None);
}

#[test]
fn update_sees_the_new_state_of_earlier_statements() {
    // the second oscillator's frequency is the first one's saw
    let mut rack = TestRack::new();
    let mut main = rack.main_mut();
    let lead = main.push_component(OctahackComponent::Synth(Synth::new()));
    let follow = main.push_component(OctahackComponent::Synth(Synth::new()));
    main.set_param(lead, Params::Freq, hertz(11025));
    main.wire(
        WireSrc::component_output(lead, Output::Saw),
        WireDst::component_param(follow, Params::Freq, Value::max_value()),
    );
    main.wire(WireSrc::component_output(follow, Output::Saw), WireDst::rack_output(AnyOutputSpec(0)));
    let ctx = host(&[]);
    rack.update(&ctx);
    // lead moved to a quarter before follow read its saw
    let freq = saw_of(0x4000_0000);
    let step = phase_step(freq, 44100);
    assert_eq!(rack.output(AnyOutputSpec(0), &ctx), one(saw_of(step)));
}

#[test]
fn a_rack_can_be_read() {
    let mut rack = TestRack::new();
    assert_eq!(rack.len(), 0);
    assert!(rack.has_def(None));
    let f = rack.new_func();
    assert!(rack.has_def(Some(f)));
    assert_eq!(rack.len(), 1);
    let a = rack.main_mut().push_component(amp());
    let call = rack.func_mut(f).push_function_call(f);
    assert_eq!(rack.len(), 3);
    assert_eq!(rack.main().statements, vec![a]);
    assert_eq!(rack.func(f).map(|d| d.statements.len()), Some(1));
    assert_eq!(rack.func_mut(f).def().statements, vec![call]);

    let unknown = ComponentId(Uid(a.0.to_u32() ^ call.0.to_u32() ^ f.0.to_u32() ^ 0x5555));
    assert!(rack.meta(unknown).is_none() || unknown == a || unknown == call);
    match rack.meta(a) {
        Some(octahack::rack::Meta::Component(meta)) => {
            assert_eq!(meta.params.len(), 8);
            assert_eq!(meta.inputs.len(), 8);
            assert!(meta.params.iter().all(|p| p.natural_value == Value::zero() && p.wire.is_none()));
            assert!((0..8).all(|i| meta.inputs.get(i).is_none()));
        }
        _ => panic!("a node expected"),
    }
    match rack.meta(call) {
        Some(octahack::rack::Meta::Function { func_id, inputs }) => {
            assert_eq!(*func_id, f);
            assert_eq!(inputs.len(), 0);
        }
        _ => panic!("a call expected"),
    }
    assert!(rack.component(a).is_some());
    assert!(rack.component(call).is_none());

    // where a wire can go
    assert!(rack.can_wire(None, &WireDst::rack_output(AnyOutputSpec(7))));
    assert!(!rack.can_wire(None, &WireDst::rack_output(AnyOutputSpec(usize::MAX))));
    assert!(rack.can_read(None, &WireSrc::rack_input(AnyInputSpec(usize::MAX))));
    assert!(rack.can_wire(Some(f), &WireDst::rack_output(AnyOutputSpec(0))));
    assert!(rack.can_wire(None, &WireDst::component_input(a, io(7))));
    assert!(!rack.can_wire(None, &WireDst::component_input(a, AnyInputSpec(8))));
    assert!(rack.can_wire(None, &WireDst::component_input(call, AnyInputSpec(100))));
    assert!(rack.can_wire(None, &WireDst::component_param(a, io(7), Value::zero())));
    assert!(!rack.can_wire(None, &WireDst::component_param(a, AnyParamSpec(8), Value::zero())));
    assert!(!rack.can_wire(None, &WireDst::component_param(call, AnyParamSpec(0), Value::zero())));
    assert!(rack.has_param(a, 7));
    assert!(!rack.has_param(a, 8));
    assert!(!rack.has_param(call, 0));
    let gone = octahack::uid::FuncId(Uid(f.0.to_u32().wrapping_add(1)));
    if !rack.has_def(Some(gone)) {
        assert!(!rack.can_wire(Some(gone), &WireDst::rack_output(AnyOutputSpec(0))));
        assert!(rack.func(gone).is_none());
    }
}

#[test]
fn a_wire_into_a_call_input_makes_the_table_grow() {
    let mut rack = TestRack::new();
    let f = rack.new_func();
    let call = rack.main_mut().push_function_call(f);
    rack.main_mut()
        .wire(WireSrc::rack_input(AnyInputSpec(0)), WireDst::component_input(call, AnyInputSpec(3)));
    match rack.meta(call) {
        Some(octahack::rack::Meta::Function { inputs, .. }) => {
            assert_eq!(inputs.len(), 4);
            assert_eq!(inputs.get(3), Some(WireSrc::rack_input(AnyInputSpec(0))));
            assert_eq!(inputs.get(0), None);
        }
        _ => panic!("a call expected"),
    }
    rack.main_mut()
        .wire(WireSrc::rack_input(AnyInputSpec(1)), WireDst::rack_output(AnyOutputSpec(2)));
    assert_eq!(rack.main().out_wires.len(), 3);
    assert_eq!(rack.main().out_wires.get(2), Some(WireSrc::rack_input(AnyInputSpec(1))));
}

#[test]
fn a_node_pushed_after_a_call_is_not_in_the_call() {
    let mut rack = TestRack::new();
    let f = rack.new_func();
    let mut func = rack.func_mut(f);
    let early = func.push_component(OctahackComponent::Synth(Synth { tick: 5 }));
    func.wire(WireSrc::component_output(early, Output::Saw), WireDst::rack_output(AnyOutputSpec(0)));
    let call = rack.main_mut().push_function_call(f);
    let mut func = rack.func_mut(f);
    let late = func.push_component(OctahackComponent::Synth(Synth { tick: 9 }));
    func.wire(WireSrc::component_output(late, Output::Saw), WireDst::rack_output(AnyOutputSpec(1)));
    let mut main = rack.main_mut();
    main.wire(WireSrc::component_output(call, AnyOutputSpec(0)), WireDst::rack_output(AnyOutputSpec(0)));
    main.wire(WireSrc::component_output(call, AnyOutputSpec(1)), WireDst::rack_output(AnyOutputSpec(1)));
    let ctx = host(&[]);
    assert_eq!(rack.output(AnyOutputSpec(0), &ctx), one(saw_of(5)));
    assert_eq!(rack.output(AnyOutputSpec(1), &ctx), None);
    // a later call has both
    let second = rack.main_mut().push_function_call(f);
    rack.main_mut().wire(
        WireSrc::component_output(second, AnyOutputSpec(1)),
        WireDst::rack_output(AnyOutputSpec(2)),
    );
    assert_eq!(rack.output(AnyOutputSpec(2), &ctx), one(saw_of(9)));
    // on its own the definition has both as well
    assert_eq!(rack.func_mut(f).output(AnyOutputSpec(1), &ctx), one(saw_of(9)));
}

#[test]
fn calls_of_one_definition_in_different_calls_are_apart() {
    // inner holds an oscillator; outer calls inner twice; main calls outer twice
    let mut rack = TestRack::new();
    let inner = rack.new_func();
    let mut func = rack.func_mut(inner);
    let synth = func.push_component(OctahackComponent::Synth(Synth::new()));
    func.wire(
        WireSrc::rack_input(AnyInputSpec(0)),
        WireDst::component_param(synth, Params::Freq, Value::max_value()),
    );
    func.wire(WireSrc::component_output(synth, Output::Saw), WireDst::rack_output(AnyOutputSpec(0)));
    let outer = rack.new_func();
    let mut func = rack.func_mut(outer);
    let left = func.push_function_call(inner);
    let right = func.push_function_call(inner);
    func.wire(WireSrc::rack_input(AnyInputSpec(0)), WireDst::component_input(left, AnyInputSpec(0)));
    func.wire(WireSrc::rack_input(AnyInputSpec(1)), WireDst::component_input(right, AnyInputSpec(0)));
    func.wire(WireSrc::component_output(left, AnyOutputSpec(0)), WireDst::rack_output(AnyOutputSpec(0)));
    func.wire(WireSrc::component_output(right, AnyOutputSpec(0)), WireDst::rack_output(AnyOutputSpec(1)));
    let mut main = rack.main_mut();
    let a = main.push_function_call(outer);
    let b = main.push_function_call(outer);
    for (call, base) in [(a, 0usize), (b, 2usize)] {
        for port in 0..2 {
            main.wire(
                WireSrc::rack_input(AnyInputSpec(base + port)),
                WireDst::component_input(call, AnyInputSpec(port)),
            );
            main.wire(
                WireSrc::component_output(call, AnyOutputSpec(port)),
                WireDst::rack_output(AnyOutputSpec(base + port)),
            );
        }
    }
    let freqs = [hertz(100), hertz(200), hertz(300), hertz(400)];
    let ctx = Context::new(freqs.iter().map(|f| one(*f)).collect(), 44100);
    let mut ticks = [0u32; 4];
    for _ in 0..20 {
        rack.update(&ctx);
        for (i, f) in freqs.iter().enumerate() {
            ticks[i] = ticks[i].wrapping_add(phase_step(*f, 44100));
            assert_eq!(rack.output(AnyOutputSpec(i), &ctx), one(saw_of(ticks[i])));
        }
    }
    let mut sorted = ticks.to_vec();
    sorted.dedup();
    assert_eq!(sorted.len(), 4);
}

#[test]
fn the_rack_builds_its_top_level_itself() {
    let mut rack = TestRack::new();
    let a = rack.new_component(amp());
    rack.wire(WireSrc::rack_input(AnyInputSpec(0)), WireDst::component_input(a, io(2)));
    rack.wire(WireSrc::component_output(a, io(2)), WireDst::rack_output(AnyOutputSpec(0)));
    rack.set_param(a, io(2), v(0x4000_0000));
    assert_eq!(rack.main().statements, vec![a]);
    let ctx = host(&[0x2000_0000]);
    rack.update(&ctx);
    assert_eq!(rack.output(AnyOutputSpec(0), &ctx), one(v(0x1000_0000)));
}

#[test]
fn the_top_level_has_the_ports_that_it_declares() {
    let mut rack = Rack::<OctahackComponent, OctahackInput, OctahackOutput>::new();
    let a = rack.new_component(amp());
    // the four outputs and no more
    for port in 0..4 {
        assert!(rack.can_wire(None, &WireDst::rack_output(AnyOutputSpec(port))));
    }
    assert!(rack.can_wire(None, &WireDst::rack_output(OctahackOutput::CueR)));
    assert!(!rack.can_wire(None, &WireDst::rack_output(AnyOutputSpec(4))));
    assert!(!rack.can_wire(None, &WireDst::rack_output(AnyOutputSpec(usize::MAX))));
    // the four inputs and no more
    assert!(rack.can_read(None, &WireSrc::rack_input(OctahackInput::AudioD)));
    assert!(!rack.can_read(None, &WireSrc::rack_input(AnyInputSpec(4))));
    // the outputs that a node declares, and any output of a node that is not there
    assert!(rack.can_read(None, &WireSrc::component_output(a, io(7))));
    assert!(!rack.can_read(None, &WireSrc::component_output(a, AnyOutputSpec(8))));
    assert!(rack.can_read(None, &WireSrc::component_output(ComponentId(Uid(a.0.to_u32() ^ 1)), AnyOutputSpec(8))));
    // another definition has the ports that its wires give it
    let f = rack.new_func();
    assert!(rack.can_wire(Some(f), &WireDst::rack_output(AnyOutputSpec(40))));
    assert!(rack.can_read(Some(f), &WireSrc::rack_input(AnyInputSpec(40))));
    let call = rack.main_mut().push_function_call(f);
    assert!(rack.can_read(None, &WireSrc::component_output(call, AnyOutputSpec(40))));

    rack.wire(WireSrc::rack_input(OctahackInput::AudioB), WireDst::component_input(a, io(0)));
    rack.wire(WireSrc::component_output(a, io(0)), WireDst::rack_output(OctahackOutput::CueL));
    rack.set_param(a, io(0), Value::max_value());
    let ctx = host(&[1, 500, 3, 4]);
    rack.update(&ctx);
    assert_eq!(rack.output(OctahackOutput::CueL, &ctx), one(v(499)));
    assert_eq!(rack.output(OctahackOutput::MainL, &ctx), None);
}

#[test]
fn a_call_needs_an_instance_number_for_each_instance() {
    let mut rack = TestRack::new();
    let inner = rack.new_func();
    let outer = rack.new_func();
    assert!(rack.can_call(inner));
    assert!(rack.can_call(outer));
    let gone = octahack::uid::FuncId(Uid(inner.0.to_u32() ^ outer.0.to_u32() ^ 0x1234_5678));
    if !rack.has_def(Some(gone)) {
        assert!(!rack.can_call(gone));
    }
    rack.func_mut(inner).push_component(OctahackComponent::Synth(Synth::new()));
    rack.func_mut(outer).push_function_call(inner);
    rack.func_mut(outer).push_function_call(inner);
    assert!(rack.can_call(outer));
    rack.main_mut().push_function_call(outer);
    assert!(rack.can_call(outer));
}
