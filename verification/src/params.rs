//! Tables of wires indexed by port, and the resolution of parameters.

use crate::components::SpecId;
use crate::value::{AnyIter, Signal, Value};
use crate::wire::ParamWire;
use vstd::prelude::*;

verus! {

/// What a table holds at an index: nothing beyond its end.
pub open spec fn spec_get<T>(table: Seq<Option<T>>, id: int) -> Option<T> {
    if 0 <= id < table.len() {
        table[id]
    } else {
        None
    }
}

/// The table after `val` was stored at `id`: the entry is replaced, and a table
/// that was too short is first filled up with empty entries.
pub open spec fn spec_set<T>(table: Seq<Option<T>>, id: int, val: Option<T>) -> Seq<Option<T>> {
    if id < table.len() {
        table.update(id, val)
    } else {
        Seq::new((id + 1) as nat, |i: int| if i == id { val } else { spec_get(table, i) })
    }
}

/// Storing twice at one index leaves what was stored last, as if the first had
/// never been stored.
pub proof fn lemma_set_overwrites<T>(
    table: Seq<Option<T>>,
    id: int,
    first: Option<T>,
    second: Option<T>,
)
    requires
        0 <= id,
    ensures
        spec_set(spec_set(table, id, first), id, second) == spec_set(table, id, second),
        spec_get(spec_set(table, id, second), id) == second,
{
    assert(spec_set(spec_set(table, id, first), id, second) =~= spec_set(table, id, second));
}

/// Storing at one index leaves what the table holds at every other index.
pub proof fn lemma_set_keeps_others<T>(table: Seq<Option<T>>, id: int, val: Option<T>, other: int)
    requires
        0 <= id,
        other != id,
    ensures
        spec_get(spec_set(table, id, val), other) == spec_get(table, other),
{
}

/// A table with an optional entry for each index, which grows as entries are
/// stored.
pub struct AnyOptStorage<T> {
    inner: Vec<Option<T>>,
}

impl<T> View for AnyOptStorage<T> {
    type V = Seq<Option<T>>;

    closed spec fn view(&self) -> Seq<Option<T>> {
        self.inner@
    }
}

impl<T: Copy> AnyOptStorage<T> {
    pub fn new() -> (storage: Self)
        ensures
            storage@ == Seq::<Option<T>>::empty(),
    {
        AnyOptStorage { inner: Vec::new() }
    }

    /// A table of `len` empty entries.
    pub fn with_len(len: usize) -> (storage: Self)
        ensures
            storage@ == Seq::new(len as nat, |i: int| None::<T>),
    {
        let mut inner: Vec<Option<T>> = Vec::new();
        let mut i: usize = 0;
        while i < len
            invariant
                i <= len,
                inner@ == Seq::new(i as nat, |j: int| None::<T>),
            decreases len - i,
        {
            inner.push(None);
            assert(inner@ =~= Seq::new((i + 1) as nat, |j: int| None::<T>));
            i += 1;
        }
        AnyOptStorage { inner }
    }

    pub fn len(&self) -> (len: usize)
        ensures
            len == self@.len(),
    {
        self.inner.len()
    }

    pub fn get(&self, id: SpecId) -> (val: Option<T>)
        ensures
            val == spec_get(self@, id as int),
    {
        if id < self.inner.len() {
            self.inner[id]
        } else {
            None
        }
    }

    pub fn set(&mut self, id: SpecId, val: Option<T>)
        requires
            id < usize::MAX,
        ensures
            final(self)@ == spec_set(old(self)@, id as int, val),
    {
        let ghost before = self.inner@;
        while self.inner.len() <= id
            invariant
                id < usize::MAX,
                before.len() <= self.inner@.len(),
                self.inner@.len() <= before.len() || self.inner@.len() <= id + 1,
                forall|i: int|
                    0 <= i < self.inner@.len() ==> self.inner@[i] == spec_get(before, i),
            decreases id + 1 - self.inner@.len(),
        {
            self.inner.push(None);
        }
        let ghost grown = self.inner@;
        self.inner.set(id, val);
        assert(self.inner@.len() == spec_set(before, id as int, val).len());
        assert forall|i: int| 0 <= i < self.inner@.len() implies self.inner@[i] == spec_set(
            before,
            id as int,
            val,
        )[i] by {
            if i != id {
                assert(self.inner@[i] == grown[i]);
                assert(grown[i] == spec_get(before, i));
            } else {
                assert(self.inner@[i] == val);
            }
        }
        assert(self.inner@ =~= spec_set(before, id as int, val));
    }
}

/// A parameter of a node: its natural value, and the wire that moves it, where
/// there is one.
#[derive(Clone, Copy, Debug, PartialEq)]
pub struct ParamValue {
    pub natural_value: Value,
    pub wire: Option<ParamWire>,
}

/// The largest weight that an amount can have.
pub open spec fn full_weight() -> int {
    0xffff_ffff
}

/// The weight of an amount: none at the smallest amount, `full_weight()` at
/// the largest.
pub open spec fn spec_weight(amount: Value) -> int {
    amount.bits - i32::MIN
}

/// The sum of the samples, each counted from the smallest sample.
pub open spec fn spec_offset_sum(samples: Seq<Value>) -> int
    decreases samples.len(),
{
    if samples.len() == 0 {
        0
    } else {
        spec_offset_sum(samples.drop_last()) + (samples.last().bits - i32::MIN)
    }
}

/// The mean of the samples, rounded towards minus infinity.
pub open spec fn spec_average(samples: Seq<Value>) -> Value
    recommends
        samples.len() > 0,
{
    Value { bits: (spec_offset_sum(samples) / (samples.len() as int) + i32::MIN) as i32 }
}

/// The point between the natural value and the source that the amount asks
/// for: the natural value at the smallest amount, the source at the largest,
/// and in between the natural value moved towards the source in proportion to
/// the amount's weight, by a whole number of units.
pub open spec fn spec_blend(natural: Value, source: Value, amount: Value) -> Value {
    let w = spec_weight(amount);
    if source.bits >= natural.bits {
        Value { bits: (natural.bits + ((source.bits - natural.bits) * w) / full_weight()) as i32 }
    } else {
        Value { bits: (natural.bits - ((natural.bits - source.bits) * w) / full_weight()) as i32 }
    }
}

/// The value of a parameter during one tick. Without a wire, or where the wire
/// brings no sample, it is the natural value. Else it is the natural value
/// blended with the mean of the samples that the wire brings.
pub open spec fn spec_access_value(
    natural: Value,
    wire: Option<ParamWire>,
    source: Option<Signal>,
) -> Value {
    match (wire, source) {
        (Some(w), Some(Signal::Analog(samples))) => if samples.len() > 0 {
            spec_blend(natural, spec_average(samples), w.value)
        } else {
            natural
        },
        _ => natural,
    }
}

proof fn lemma_offset_sum_bounds(samples: Seq<Value>)
    ensures
        0 <= spec_offset_sum(samples) <= samples.len() * full_weight(),
    decreases samples.len(),
{
    if samples.len() > 0 {
        lemma_offset_sum_bounds(samples.drop_last());
        assert((samples.len() - 1) * full_weight() + full_weight() == samples.len()
            * full_weight()) by (nonlinear_arith);
    }
}

/// The mean of samples is a sample.
pub proof fn lemma_average_range(samples: Seq<Value>)
    requires
        samples.len() > 0,
    ensures
        i32::MIN <= spec_offset_sum(samples) / (samples.len() as int) + i32::MIN <= i32::MAX,
{
    lemma_offset_sum_bounds(samples);
    let n = samples.len() as int;
    let s = spec_offset_sum(samples);
    assert(0 <= s / n <= full_weight()) by (nonlinear_arith)
        requires
            n > 0,
            0 <= s <= n * full_weight(),
    ;
}

/// The mean of a single sample is that sample.
pub proof fn lemma_average_single(v: Value)
    ensures
        spec_average(seq![v]) == v,
{
    let s = seq![v];
    assert(s.drop_last() =~= Seq::<Value>::empty());
    assert(spec_offset_sum(s.drop_last()) == 0);
    assert(s.last() == v);
}

proof fn lemma_step_bounds(d: int, w: int)
    requires
        0 <= d <= full_weight(),
        0 <= w <= full_weight(),
    ensures
        0 <= d * w <= full_weight() * full_weight(),
        0 <= (d * w) / full_weight() <= d,
        w == 0 ==> (d * w) / full_weight() == 0,
        w == full_weight() ==> (d * w) / full_weight() == d,
{
    assert(0 <= d * w <= full_weight() * full_weight()) by (nonlinear_arith)
        requires
            0 <= d <= full_weight(),
            0 <= w <= full_weight(),
    ;
    assert(d * w <= d * full_weight()) by (nonlinear_arith)
        requires
            0 <= d,
            0 <= w <= full_weight(),
    ;
    assert((d * w) / full_weight() <= d) by (nonlinear_arith)
        requires
            0 <= d * w <= d * full_weight(),
    ;
    assert(0 <= (d * w) / full_weight()) by (nonlinear_arith)
        requires
            0 <= d * w,
    ;
    if w == full_weight() {
        assert((d * full_weight()) / full_weight() == d) by (nonlinear_arith);
    }
    if w == 0 {
        assert(d * 0 == 0) by (nonlinear_arith);
    }
}

/// At the smallest amount a parameter keeps its natural value, whatever the
/// source is. At the largest amount it takes the source's value, whatever the
/// natural value is.
pub proof fn lemma_blend_boundary(natural: Value, source: Value)
    ensures
        spec_blend(natural, source, Value::spec_min()) == natural,
        spec_blend(natural, source, Value::spec_max()) == source,
{
    if source.bits >= natural.bits {
        lemma_step_bounds(source.bits - natural.bits, 0);
        lemma_step_bounds(source.bits - natural.bits, full_weight());
    } else {
        lemma_step_bounds(natural.bits - source.bits, 0);
        lemma_step_bounds(natural.bits - source.bits, full_weight());
    }
}

/// A blended value lies between the natural value and the source, and a larger
/// amount brings it no further from the source.
pub proof fn lemma_blend_monotonic(natural: Value, source: Value, low: Value, high: Value)
    requires
        low.bits <= high.bits,
    ensures
        source.bits >= natural.bits ==> natural.bits <= spec_blend(natural, source, low).bits
            <= spec_blend(natural, source, high).bits <= source.bits,
        source.bits < natural.bits ==> natural.bits >= spec_blend(natural, source, low).bits
            >= spec_blend(natural, source, high).bits >= source.bits,
{
    let d = if source.bits >= natural.bits {
        source.bits - natural.bits
    } else {
        natural.bits - source.bits
    };
    let wl = spec_weight(low);
    let wh = spec_weight(high);
    lemma_step_bounds(d, wl);
    lemma_step_bounds(d, wh);
    assert(d * wl <= d * wh) by (nonlinear_arith)
        requires
            0 <= d,
            wl <= wh,
    ;
    assert((d * wl) / full_weight() <= (d * wh) / full_weight()) by (nonlinear_arith)
        requires
            d * wl <= d * wh,
    ;
}

/// With a wire installed and the amount at its smallest, the resolved parameter
/// is the natural value whatever the wire brings. With the amount at its
/// largest and a wire that brings samples, it is the mean of the samples
/// whatever the natural value is.
pub proof fn lemma_param_boundary(natural: Value, wire: ParamWire, source: Option<Signal>)
    ensures
        wire.value == Value::spec_min() ==> spec_access_value(natural, Some(wire), source)
            == natural,
        wire.value == Value::spec_max() ==> (match source {
            Some(Signal::Analog(samples)) => samples.len() > 0 ==> spec_access_value(
                natural,
                Some(wire),
                source,
            ) == spec_average(samples),
            _ => true,
        }),
{
    match source {
        Some(Signal::Analog(samples)) => {
            if samples.len() > 0 {
                lemma_blend_boundary(natural, spec_average(samples));
            }
        },
        _ => {},
    }
}

/// The mean of the samples of a signal.
pub fn average(samples: &Vec<Value>) -> (mean: Value)
    requires
        samples@.len() > 0,
    ensures
        mean == spec_average(samples@),
{
    let mut sum: u128 = 0;
    let mut i: usize = 0;
    while i < samples.len()
        invariant
            i <= samples.len(),
            sum == spec_offset_sum(samples@.take(i as int)),
            sum <= i * full_weight(),
        decreases samples.len() - i,
    {
        let offset: u64 = (samples[i].bits as i64 - (i32::MIN as i64)) as u64;
        assert(samples@.take(i + 1).drop_last() =~= samples@.take(i as int));
        assert(i * full_weight() + full_weight() == (i + 1) * full_weight()) by (nonlinear_arith);
        assert((i + 1) * full_weight() <= 0x1_0000_0000_0000_0000 * full_weight())
            by (nonlinear_arith)
            requires
                i + 1 <= 0x1_0000_0000_0000_0000,
        ;
        sum = sum + offset as u128;
        i += 1;
    }
    assert(samples@.take(samples.len() as int) =~= samples@);
    proof {
        lemma_average_range(samples@);
    }
    let mean: u128 = sum / (samples.len() as u128);
    Value { bits: (mean as i64 + (i32::MIN as i64)) as i32 }
}

/// The value between `natural` and `source` that `amount` asks for.
pub fn blend(natural: Value, source: Value, amount: Value) -> (value: Value)
    ensures
        value == spec_blend(natural, source, amount),
{
    let w: u64 = (amount.bits as i64 - (i32::MIN as i64)) as u64;
    if source.bits >= natural.bits {
        let d: u64 = (source.bits as i64 - natural.bits as i64) as u64;
        proof {
            lemma_step_bounds(d as int, w as int);
        }
        let step: u64 = (d * w) / 0xffff_ffffu64;
        Value { bits: (natural.bits as i64 + step as i64) as i32 }
    } else {
        let d: u64 = (natural.bits as i64 - source.bits as i64) as u64;
        proof {
            lemma_step_bounds(d as int, w as int);
        }
        let step: u64 = (d * w) / 0xffff_ffffu64;
        Value { bits: (natural.bits as i64 - step as i64) as i32 }
    }
}

/// The value of a parameter during one tick, from its natural value, its wire
/// and what the wire brings.
pub fn access_value(natural: Value, wire: Option<ParamWire>, source: &Option<AnyIter>) -> (value:
    Value)
    ensures
        value == spec_access_value(natural, wire, crate::value::opt_signal(*source)),
{
    match wire {
        Some(w) => match source {
            Some(AnyIter::Analog(samples)) => {
                if samples.len() > 0 {
                    blend(natural, average(samples), w.value)
                } else {
                    natural
                }
            },
            _ => natural,
        },
        None => natural,
    }
}

} // verus!
