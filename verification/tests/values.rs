use octahack::components::{AnyInputSpec, AnyOutputSpec, AnyParamSpec};
use octahack::params::{access_value, average, blend, AnyOptStorage};
use octahack::uid::{node_key, slot_key, ComponentId, Uid, UidGen, ROOT};
use octahack::value::{
    copy_events, copy_values, duplicate_opt, AnyIter, MidiValue, Value, ValueKind, ValueType,
};
use octahack::wire::{ElementSpecifier, ParamWire, Wire, WireDst, WireDstInner, WireSrc};

fn v(bits: i32) -> Value {
    Value::from_bits(bits)
}

#[test]
fn value_bits_round_trip() {
    for bits in [i32::MIN, -1, 0, 1, i32::MAX] {
        assert_eq!(Value::from_bits(bits).to_bits(), bits);
    }
    assert_eq!(Value::zero().to_bits(), 0);
    assert_eq!(Value::max_value().to_bits(), i32::MAX);
    assert_eq!(Value::min_value().to_bits(), i32::MIN);
}

#[test]
fn saturating_mul_values() {
    let half = v(0x4000_0000);
    assert_eq!(half.saturating_mul(half), v(0x2000_0000));
    assert_eq!(half.saturating_mul(Value::zero()), Value::zero());
    assert_eq!(Value::zero().saturating_mul(half), Value::zero());
    assert_eq!(v(-0x4000_0000).saturating_mul(half), v(-0x2000_0000));
    // the one product that is out of range
    assert_eq!(Value::min_value().saturating_mul(Value::min_value()), Value::max_value());
    // minus one times the largest value
    assert_eq!(Value::min_value().saturating_mul(Value::max_value()), v(-i32::MAX));
    // products round towards minus infinity
    assert_eq!(v(1).saturating_mul(v(1)), v(0));
    assert_eq!(v(-1).saturating_mul(v(1)), v(-1));
    assert_eq!(v(3).saturating_mul(v(0x4000_0000)), v(1));
    assert_eq!(v(-3).saturating_mul(v(0x4000_0000)), v(-2));
    assert_eq!(Value::max_value().saturating_mul(Value::max_value()), v(i32::MAX - 1));
}

#[test]
fn samples_widen_and_narrow() {
    assert_eq!(Value::from_sample(0), Value::zero());
    assert_eq!(Value::from_sample(1), v(0x1_0000));
    assert_eq!(Value::from_sample(-1), v(-0x1_0000));
    assert_eq!(Value::from_sample(i16::MAX), v(0x7fff_0000));
    assert_eq!(Value::from_sample(i16::MIN), Value::min_value());
    assert_eq!(v(0x1_0000).to_sample(), 1);
    assert_eq!(v(0xffff).to_sample(), 0);
    assert_eq!(v(-1).to_sample(), -1);
    assert_eq!(v(-0x1_0000).to_sample(), -1);
    assert_eq!(v(-0x1_0001).to_sample(), -2);
    assert_eq!(Value::max_value().to_sample(), i16::MAX);
    assert_eq!(Value::min_value().to_sample(), i16::MIN);
    for s in [i16::MIN, -300, -1, 0, 1, 17, i16::MAX] {
        assert_eq!(Value::from_sample(s).to_sample(), s);
    }
}

#[test]
fn discrete_steps() {
    assert_eq!(Value::zero().discrete(10), 0);
    assert_eq!(Value::min_value().discrete(10), 0);
    assert_eq!(v(-5).discrete(255), 0);
    assert_eq!(v(0x4000_0000).discrete(10), 5);
    assert_eq!(Value::max_value().discrete(10), 9);
    assert_eq!(Value::max_value().discrete(255), 254);
    assert_eq!(Value::max_value().discrete(0), 0);
    assert_eq!(v(0x0ccc_cccc).discrete(10), 0);
    assert_eq!(v(0x0ccc_cccd).discrete(10), 1);
}

#[test]
fn unsigned_form() {
    assert_eq!(Value::zero().to_u(), 0x7fff_ffff);
    assert_eq!(Value::max_value().to_u(), 0xffff_fffe);
    assert_eq!(v(i32::MIN + 1).to_u(), 0);
    assert_eq!(Value::min_value().to_u(), 0xffff_ffff);
    assert_eq!(v(-1).to_u(), 0x7fff_fffe);
    for bits in [i32::MIN, i32::MIN + 1, -7, 0, 7, i32::MAX] {
        assert_eq!(Value::from_u(v(bits).to_u()), v(bits));
    }
    assert_eq!(Value::from_u(0), v(i32::MIN + 1));
}

#[test]
fn value_types() {
    assert_eq!(
        ValueType::continuous(),
        ValueType { kind: ValueKind::Continuous, channels: None }
    );
    assert_eq!(ValueType::mono(), ValueType { kind: ValueKind::Continuous, channels: Some(1) });
    assert_eq!(ValueType::stereo(), ValueType { kind: ValueKind::Continuous, channels: Some(2) });
    assert_eq!(ValueType::continuous().audio_channels(), 0);
    assert_eq!(ValueType::mono().audio_channels(), 1);
    assert_eq!(ValueType::stereo().audio_channels(), 2);
    assert_eq!(ValueType { kind: ValueKind::Binary, channels: Some(4) }.audio_channels(), 0);
    assert_eq!(ValueType { kind: ValueKind::Midi, channels: Some(1) }.audio_channels(), 0);
    assert_eq!(ValueType { kind: ValueKind::Discrete(9), channels: Some(1) }.audio_channels(), 0);
}

#[test]
fn default_signals() {
    assert_eq!(AnyIter::default_for(ValueType::mono()), AnyIter::Analog(vec![Value::zero()]));
    assert_eq!(
        AnyIter::default_for(ValueType::stereo()),
        AnyIter::Analog(vec![Value::zero(), Value::zero()])
    );
    assert_eq!(AnyIter::default_for(ValueType::continuous()), AnyIter::Analog(vec![Value::zero()]));
    assert_eq!(
        AnyIter::default_for(ValueType { kind: ValueKind::Continuous, channels: Some(0) }),
        AnyIter::Analog(vec![])
    );
    assert_eq!(
        AnyIter::default_for(ValueType { kind: ValueKind::Midi, channels: Some(3) }),
        AnyIter::Midi(vec![])
    );
}

#[test]
fn signals_copy() {
    let analog = AnyIter::Analog(vec![v(1), v(-2)]);
    let midi = AnyIter::Midi(vec![MidiValue::NoteOn(60, 127), MidiValue::PitchBend(0, 0x40)]);
    assert_eq!(analog.duplicate(), analog);
    assert_eq!(midi.duplicate(), midi);
    assert_eq!(analog.analog(), Some(&vec![v(1), v(-2)]));
    assert!(analog.midi().is_none());
    assert!(midi.analog().is_none());
    assert_eq!(midi.midi().map(|e| e.len()), Some(2));
    assert_eq!(copy_values(&vec![v(5)]), vec![v(5)]);
    assert_eq!(copy_events(&vec![MidiValue::ProgramChange(3)]), vec![MidiValue::ProgramChange(3)]);
    assert_eq!(duplicate_opt(&None), None);
    assert_eq!(duplicate_opt(&Some(analog.duplicate())), Some(analog));
}

#[test]
fn averages() {
    assert_eq!(average(&vec![v(42)]), v(42));
    assert_eq!(average(&vec![v(10), v(20)]), v(15));
    assert_eq!(average(&vec![v(-10), v(10)]), v(0));
    // rounded towards minus infinity
    assert_eq!(average(&vec![v(1), v(2)]), v(1));
    assert_eq!(average(&vec![v(-1), v(-2)]), v(-2));
    assert_eq!(average(&vec![Value::max_value(); 1000]), Value::max_value());
    assert_eq!(average(&vec![Value::min_value(); 1000]), Value::min_value());
    assert_eq!(average(&vec![Value::min_value(), Value::max_value()]), v(-1));
}

#[test]
fn blend_boundaries_and_midpoint() {
    let pairs = [
        (v(0), v(1000)),
        (v(1000), v(0)),
        (Value::min_value(), Value::max_value()),
        (Value::max_value(), Value::min_value()),
        (v(-5), v(-5)),
    ];
    for (natural, source) in pairs {
        assert_eq!(blend(natural, source, Value::min_value()), natural);
        assert_eq!(blend(natural, source, Value::max_value()), source);
    }
    // the amount zero has the weight 2^31 of 2^32 - 1
    assert_eq!(blend(v(0), v(1000), v(0)), v(500));
    assert_eq!(blend(v(1000), v(0), v(0)), v(500));
    assert_eq!(blend(v(0), v(1001), v(0)), v(500));
    assert_eq!(blend(v(0), v(-1001), v(0)), v(-500));
    assert_eq!(
        blend(Value::min_value(), Value::max_value(), v(0)),
        v(0)
    );
}

#[test]
fn blend_is_monotonic_in_the_amount() {
    let natural = v(-1_000_000);
    let source = v(2_000_000_000);
    let mut last = natural.to_bits();
    let mut amount = i32::MIN as i64;
    while amount <= i32::MAX as i64 {
        let got = blend(natural, source, v(amount as i32)).to_bits();
        assert!(got >= last);
        assert!(got <= source.to_bits());
        last = got;
        amount += 0x0100_0000;
    }
}

#[test]
fn access_value_cases() {
    let src = WireSrc(Wire { io_index: 0, element: ElementSpecifier::FuncInputs });
    let full = Some(ParamWire { src, value: Value::max_value() });
    let none_amount = Some(ParamWire { src, value: Value::min_value() });
    let natural = v(77);
    let two = Some(AnyIter::Analog(vec![v(100), v(300)]));
    // without a wire the natural value stands
    assert_eq!(access_value(natural, None, &two), natural);
    // a wire that brings nothing leaves the natural value
    assert_eq!(access_value(natural, full, &None), natural);
    assert_eq!(access_value(natural, full, &Some(AnyIter::Analog(vec![]))), natural);
    assert_eq!(access_value(natural, full, &Some(AnyIter::Midi(vec![]))), natural);
    // the largest amount gives the mean of the channels
    assert_eq!(access_value(natural, full, &two), v(200));
    assert_eq!(access_value(v(-9999), full, &two), v(200));
    // the smallest amount gives the natural value
    assert_eq!(access_value(natural, none_amount, &two), natural);
    assert_eq!(
        access_value(natural, none_amount, &Some(AnyIter::Analog(vec![Value::max_value()]))),
        natural
    );
}

#[test]
fn storage_grows_and_overwrites() {
    let mut s: AnyOptStorage<u32> = AnyOptStorage::new();
    assert_eq!(s.len(), 0);
    assert_eq!(s.get(0), None);
    assert_eq!(s.get(usize::MAX), None);
    s.set(3, Some(7));
    assert_eq!(s.len(), 4);
    assert_eq!(s.get(3), Some(7));
    assert_eq!(s.get(0), None);
    assert_eq!(s.get(2), None);
    assert_eq!(s.get(4), None);
    s.set(3, Some(8));
    assert_eq!(s.len(), 4);
    assert_eq!(s.get(3), Some(8));
    s.set(1, Some(1));
    assert_eq!(s.len(), 4);
    assert_eq!(s.get(1), Some(1));
    assert_eq!(s.get(3), Some(8));
    s.set(3, None);
    assert_eq!(s.get(3), None);
    let fixed: AnyOptStorage<u32> = AnyOptStorage::with_len(5);
    assert_eq!(fixed.len(), 5);
    assert_eq!(fixed.get(4), None);
}

#[test]
fn uids_and_addresses() {
    assert_eq!(Uid::new(5).to_u32(), 5);
    assert_eq!(Uid::new(5), Uid(5));
    assert_eq!(ROOT, 0);
    assert_eq!(node_key(ROOT, Uid(0)), 0);
    assert_eq!(node_key(ROOT, Uid(41)), 41);
    assert_eq!(node_key(1, Uid(0)), 0x1_0000_0000);
    assert_eq!(node_key(7, Uid(u32::MAX)), 0x7_ffff_ffff);
    assert_eq!(node_key(u32::MAX, Uid(u32::MAX)), u64::MAX);
    assert_eq!(slot_key(0, 0), 0);
    assert_eq!(slot_key(3, 9), (3u128 << 64) + 9);
    assert_eq!(slot_key(u64::MAX, usize::MAX), ((u64::MAX as u128) << 64) + usize::MAX as u128);
    // different nodes, instances and outputs have different keys
    let mut seen = std::collections::HashSet::new();
    for inst in [0u32, 1, 2, u32::MAX] {
        for id in [0u32, 1, 77, u32::MAX] {
            for port in [0usize, 1, 255] {
                assert!(seen.insert(slot_key(node_key(inst, Uid(id)), port)));
            }
        }
    }
}

#[test]
fn generator_draws() {
    let mut gen = UidGen::new();
    let drawn: Vec<Uid> = (0..64).map(|_| gen.next()).collect();
    // a generator that stood still would give one token over and over
    assert!(drawn.iter().any(|u| *u != drawn[0]));
    // two generators start from the same seed
    let mut other = UidGen::new();
    let again: Vec<Uid> = (0..64).map(|_| other.next()).collect();
    assert_eq!(drawn, again);
}

#[test]
fn wires_name_their_ports() {
    let id = ComponentId(Uid(9));
    let out = WireSrc::component_output(id, AnyOutputSpec(4));
    assert_eq!(out.0.io_index, 4);
    assert_eq!(out.0.element(), ElementSpecifier::Component { id });
    assert_eq!(out.0.output_id(), AnyOutputSpec(4));
    let input = WireSrc::rack_input(AnyInputSpec(2));
    assert_eq!(input, WireSrc(Wire { io_index: 2, element: ElementSpecifier::FuncInputs }));
    assert_eq!(input.0.input_id(), AnyInputSpec(2));
    assert_eq!(input.0.param_id(), AnyParamSpec(2));
    assert_eq!(
        WireDst::rack_output(AnyOutputSpec(1)),
        WireDst(WireDstInner::Input(Wire { io_index: 1, element: ElementSpecifier::FuncInputs }))
    );
    assert_eq!(
        WireDst::component_input(id, AnyInputSpec(3)),
        WireDst(WireDstInner::Input(Wire {
            io_index: 3,
            element: ElementSpecifier::Component { id }
        }))
    );
    assert_eq!(
        WireDst::component_param(id, AnyParamSpec(5), Value::from_bits(11)),
        WireDst(WireDstInner::Param(
            Value::from_bits(11),
            Wire { io_index: 5, element: ElementSpecifier::Component { id } }
        ))
    );
}
