//! Per-address feature rollup: counts, sums, averages, frequencies over block
//! heights and inequality sums, each with an explicit policy for empty or
//! degenerate samples. Every derived quantity is kept exact, as a ratio of
//! integers or as the integer sums that the Gini coefficient is built from.

use vstd::prelude::*;
use vstd::relations::{sorted_by, total_ordering};
use vstd::seq_lib::lemma_sorted_unique;

use crate::identity::VertexId;
use crate::traversal::Side;
use crate::labels::LabelSet;

verus! {

/// One transaction as the aggregator sees it: its value in the chain's base
/// unit, the height of its block, its gas limit and its gas price.
#[derive(Clone, Copy, Debug, PartialEq, Eq, Structural)]
pub struct TxObservation {
    pub value: u128,
    pub block_height: u64,
    pub gas: u64,
    pub gas_price: u64,
}

/// An edge of the vertex being summarised, with the transaction detail
/// that was found for it (`None` when none could be had).
#[derive(Debug)]
pub struct SampleEdge {
    pub outbound_id: VertexId,
    pub inbound_id: VertexId,
    pub label: String,
    pub detail: Option<TxObservation>,
}

/// A derived quantity: undefined, or the exact ratio `num / den` (`den > 0`).
#[derive(Clone, Copy, Debug, PartialEq, Eq, Structural)]
pub enum Stat {
    Undefined,
    Ratio { num: u128, den: u128 },
}

/// The Gini coefficient of a sample, as the integers it is computed from:
/// with the values sorted ascending and their running sums taken, `count`
/// values, `total` their sum (the last running sum) and `cumulative` the sum
/// of the running sums. The coefficient is
/// `((count + 1) - 2 * cumulative / total) / count`. Undefined for an empty
/// sample.
#[derive(Clone, Copy, Debug, PartialEq, Eq, Structural)]
pub enum Gini {
    Undefined,
    Sums { count: u128, total: u128, cumulative: u128 },
}

pub open spec fn total(s: Seq<u128>) -> int
    decreases s.len(),
{
    if s.len() == 0 {
        0
    } else {
        total(s.drop_last()) + s.last()
    }
}

/// The sum of the running sums of `s`.
pub open spec fn cum_total(s: Seq<u128>) -> int
    decreases s.len(),
{
    if s.len() == 0 {
        0
    } else {
        cum_total(s.drop_last()) + total(s)
    }
}

pub open spec fn value_leq() -> spec_fn(u128, u128) -> bool {
    |a: u128, b: u128| a <= b
}

/// `s` in ascending order.
pub open spec fn sorted_values(s: Seq<u128>) -> Seq<u128> {
    s.sort_by(value_leq())
}

pub open spec fn fits(x: int) -> bool {
    x <= u128::MAX
}

/// The Gini sums of a sample of values.
pub open spec fn gini_of(s: Seq<u128>) -> Gini {
    if s.len() == 0 {
        Gini::Undefined
    } else {
        Gini::Sums {
            count: s.len() as u128,
            total: total(sorted_values(s)) as u128,
            cumulative: cum_total(sorted_values(s)) as u128,
        }
    }
}

/// The numerator `(count + 1) * total - 2 * cumulative` of the Gini
/// coefficient over the common denominator `count * total`.
pub open spec fn gini_numerator(g: Gini) -> int {
    match g {
        Gini::Undefined => 0,
        Gini::Sums { count, total, cumulative } => (count + 1) * total - 2 * cumulative,
    }
}

proof fn lemma_total_nonneg(s: Seq<u128>)
    ensures
        total(s) >= 0,
    decreases s.len(),
{
    if s.len() > 0 {
        lemma_total_nonneg(s.drop_last());
    }
}

proof fn lemma_total_prefix(s: Seq<u128>, i: int)
    requires
        0 <= i <= s.len(),
    ensures
        total(s.take(i)) <= total(s),
        cum_total(s.take(i)) <= cum_total(s),
    decreases s.len(),
{
    if i < s.len() {
        assert(s.drop_last().take(i) =~= s.take(i));
        lemma_total_prefix(s.drop_last(), i);
        lemma_total_nonneg(s);
    } else {
        assert(s.take(i) =~= s);
    }
}

proof fn lemma_total_le_cum(s: Seq<u128>)
    ensures
        total(s) <= cum_total(s),
        cum_total(s) >= 0,
    decreases s.len(),
{
    if s.len() > 0 {
        lemma_total_le_cum(s.drop_last());
        lemma_total_nonneg(s);
    }
}

/// The running sums of `values`; `None` when the sum of all of them exceeds
/// `u128::MAX`.
pub fn cumsum(values: &Vec<u128>) -> (r: Option<Vec<u128>>)
    ensures
        r.is_some() <==> fits(total(values@)),
        r matches Some(c) ==> c@.len() == values@.len() && forall|k: int|
            0 <= k < c@.len() ==> c@[k] == total(#[trigger] values@.take(k + 1)),
{
    let mut acc: u128 = 0;
    let mut sums: Vec<u128> = Vec::new();
    let mut i: usize = 0;
    while i < values.len()
        invariant
            i <= values.len(),
            acc == total(values@.take(i as int)),
            sums@.len() == i,
            forall|k: int| 0 <= k < i ==> sums@[k] == total(#[trigger] values@.take(k + 1)),
        decreases values.len() - i,
    {
        assert(values@.take(i + 1).drop_last() =~= values@.take(i as int));
        match acc.checked_add(values[i]) {
            Some(x) => {
                acc = x;
            },
            None => {
                proof {
                    lemma_total_prefix(values@, i + 1);
                }
                return None;
            },
        }
        sums.push(acc);
        i = i + 1;
    }
    assert(values@.take(values.len() as int) =~= values@);
    Some(sums)
}

/// Relies on `slice::sort_unstable`: afterwards the vector holds the same
/// values, in ascending order.
#[verifier::external_body]
fn sort_ascending(v: &mut Vec<u128>)
    ensures
        final(v)@.to_multiset() == old(v)@.to_multiset(),
        forall|i: int, j: int| 0 <= i < j < final(v)@.len() ==> final(v)@[i] <= final(v)@[j],
{
    v.sort_unstable();
}

/// The Gini sums of `values`; `None` when the sum of the running sums of the
/// sorted values exceeds `u128::MAX`.
pub fn gini(values: &Vec<u128>) -> (r: Option<Gini>)
    ensures
        r.is_some() <==> (values@.len() == 0 || fits(cum_total(sorted_values(values@)))),
        r matches Some(g) ==> g == gini_of(values@),
{
    if values.len() == 0 {
        return Some(Gini::Undefined);
    }
    let mut sorted: Vec<u128> = Vec::new();
    let mut i: usize = 0;
    while i < values.len()
        invariant
            i <= values.len(),
            sorted@ == values@.take(i as int),
        decreases values.len() - i,
    {
        sorted.push(values[i]);
        assert(values@.take(i + 1) =~= values@.take(i as int).push(values@[i as int]));
        i = i + 1;
    }
    assert(values@.take(values.len() as int) =~= values@);
    sort_ascending(&mut sorted);
    proof {
        let leq = value_leq();
        assert(total_ordering(leq));
        values@.lemma_sort_by_ensures(leq);
        assert(sorted_by(sorted@, leq));
        lemma_sorted_unique(sorted@, sorted_values(values@), leq);
        lemma_total_le_cum(sorted@);
        sorted@.to_multiset_ensures();
        values@.to_multiset_ensures();
    }
    let sums = match cumsum(&sorted) {
        Some(c) => c,
        None => {
            return None;
        },
    };
    let mut cumulative: u128 = 0;
    let mut k: usize = 0;
    while k < sums.len()
        invariant
            k <= sums.len(),
            sums@.len() == sorted@.len(),
            forall|j: int| 0 <= j < sums@.len() ==> sums@[j] == total(#[trigger] sorted@.take(j + 1)),
            cumulative == cum_total(sorted@.take(k as int)),
            sorted@ == sorted_values(values@),
            sorted@.len() == values@.len(),
        decreases sums.len() - k,
    {
        assert(sorted@.take(k + 1).drop_last() =~= sorted@.take(k as int));
        assert(cum_total(sorted@.take(k + 1)) == cum_total(sorted@.take(k as int)) + total(
            sorted@.take(k + 1),
        ));
        match cumulative.checked_add(sums[k]) {
            Some(x) => {
                cumulative = x;
            },
            None => {
                proof {
                    lemma_total_prefix(sorted@, k + 1);
                }
                return None;
            },
        }
        k = k + 1;
    }
    assert(sorted@.take(sorted@.len() as int) =~= sorted@);
    assert(sums@[sums@.len() - 1] == total(sorted@.take((sums@.len() - 1) + 1)));
    Some(Gini::Sums { count: values.len() as u128, total: sums[sums.len() - 1], cumulative })
}


pub open spec fn values(s: Seq<TxObservation>) -> Seq<u128> {
    s.map_values(|o: TxObservation| o.value)
}

pub open spec fn gases(s: Seq<TxObservation>) -> Seq<u128> {
    s.map_values(|o: TxObservation| o.gas as u128)
}

pub open spec fn prices(s: Seq<TxObservation>) -> Seq<u128> {
    s.map_values(|o: TxObservation| o.gas_price as u128)
}

pub open spec fn heights(s: Seq<TxObservation>) -> Seq<u64> {
    s.map_values(|o: TxObservation| o.block_height)
}

pub open spec fn max_height(h: Seq<u64>) -> int
    decreases h.len(),
{
    if h.len() == 0 {
        0
    } else if h.len() == 1 {
        h[0] as int
    } else if max_height(h.drop_last()) >= h.last() {
        max_height(h.drop_last())
    } else {
        h.last() as int
    }
}

pub open spec fn min_height(h: Seq<u64>) -> int
    decreases h.len(),
{
    if h.len() == 0 {
        0
    } else if h.len() == 1 {
        h[0] as int
    } else if min_height(h.drop_last()) <= h.last() {
        min_height(h.drop_last())
    } else {
        h.last() as int
    }
}

/// The span of block heights of a sample: highest minus lowest, 0 when empty.
pub open spec fn interval(h: Seq<u64>) -> int {
    if h.len() == 0 {
        0
    } else {
        max_height(h) - min_height(h)
    }
}

/// `num / den`, or 0 when `den` is 0.
pub open spec fn ratio_or_zero(num: int, den: int) -> Stat {
    if den == 0 {
        Stat::Ratio { num: 0, den: 1 }
    } else {
        Stat::Ratio { num: num as u128, den: den as u128 }
    }
}

/// `num / den`, or undefined when `den` is 0.
pub open spec fn ratio_or_undefined(num: int, den: int) -> Stat {
    if den == 0 {
        Stat::Undefined
    } else {
        Stat::Ratio { num: num as u128, den: den as u128 }
    }
}

/// The features of one address, from the transactions into it and out of it.
/// Values and their sums are in the chain's base unit.
#[derive(Debug)]
pub struct AddressFeature {
    pub addr: String,
    pub sum_val_in: u128,
    pub sum_val_out: u128,
    pub avg_val_in: Stat,
    pub avg_val_out: Stat,
    pub count: u128,
    pub count_in: u128,
    pub count_out: u128,
    pub freq: Stat,
    pub freq_in: Stat,
    pub freq_out: Stat,
    pub gini_val: Gini,
    pub gini_val_in: Gini,
    pub gini_val_out: Gini,
    pub avg_gas: Stat,
    pub avg_gas_in: Stat,
    pub avg_gas_out: Stat,
    pub avg_gasprice: Stat,
    pub avg_gasprice_in: Stat,
    pub avg_gasprice_out: Stat,
    pub in_out_rate: Stat,
}

/// The features of `addr` with inbound sample `ins` and outbound sample `outs`.
pub open spec fn feature_spec(addr: String, ins: Seq<TxObservation>, outs: Seq<TxObservation>) -> AddressFeature {
    AddressFeature {
        addr,
        sum_val_in: total(values(ins)) as u128,
        sum_val_out: total(values(outs)) as u128,
        avg_val_in: ratio_or_zero(total(values(ins)), ins.len() as int),
        avg_val_out: ratio_or_zero(total(values(outs)), outs.len() as int),
        count: (ins.len() + outs.len()) as u128,
        count_in: ins.len() as u128,
        count_out: outs.len() as u128,
        freq: ratio_or_undefined((ins.len() + outs.len()) as int, interval(heights(ins + outs))),
        freq_in: ratio_or_undefined(ins.len() as int, interval(heights(ins))),
        freq_out: ratio_or_undefined(outs.len() as int, interval(heights(outs))),
        gini_val: gini_of(values(ins + outs)),
        gini_val_in: gini_of(values(ins)),
        gini_val_out: gini_of(values(outs)),
        avg_gas: ratio_or_undefined(total(gases(ins)) + total(gases(outs)), (ins.len() + outs.len()) as int),
        avg_gas_in: ratio_or_undefined(total(gases(ins)), ins.len() as int),
        avg_gas_out: ratio_or_undefined(total(gases(outs)), outs.len() as int),
        avg_gasprice: ratio_or_undefined(total(prices(ins)) + total(prices(outs)), (ins.len() + outs.len()) as int),
        avg_gasprice_in: ratio_or_undefined(total(prices(ins)), ins.len() as int),
        avg_gasprice_out: ratio_or_undefined(total(prices(outs)), outs.len() as int),
        in_out_rate: ratio_or_zero(ins.len() as int, outs.len() as int),
    }
}

/// The features of a sample can be held exactly: every sum of values, gas
/// and gas prices, and every Gini sum, fits in 128 bits.
pub open spec fn within_limits(ins: Seq<TxObservation>, outs: Seq<TxObservation>) -> bool {
    &&& fits(total(values(ins)))
    &&& fits(total(values(outs)))
    &&& (ins.len() == 0 || fits(cum_total(sorted_values(values(ins)))))
    &&& (outs.len() == 0 || fits(cum_total(sorted_values(values(outs)))))
    &&& (ins.len() + outs.len() == 0 || fits(cum_total(sorted_values(values(ins + outs)))))
    &&& fits(total(gases(ins)) + total(gases(outs)))
    &&& fits(total(prices(ins)) + total(prices(outs)))
}

/// The sum of `v`; `None` when it exceeds `u128::MAX`.
fn total_of(v: &Vec<u128>) -> (r: Option<u128>)
    ensures
        r.is_some() <==> fits(total(v@)),
        r matches Some(x) ==> x == total(v@),
{
    let mut acc: u128 = 0;
    let mut i: usize = 0;
    while i < v.len()
        invariant
            i <= v.len(),
            acc == total(v@.take(i as int)),
        decreases v.len() - i,
    {
        assert(v@.take(i + 1).drop_last() =~= v@.take(i as int));
        match acc.checked_add(v[i]) {
            Some(x) => {
                acc = x;
            },
            None => {
                proof {
                    lemma_total_prefix(v@, i + 1);
                }
                return None;
            },
        }
        i = i + 1;
    }
    assert(v@.take(v.len() as int) =~= v@);
    Some(acc)
}

/// The value, gas, gas price and block height columns of a sample.
fn columns(obs: &Vec<TxObservation>) -> (r: (Vec<u128>, Vec<u128>, Vec<u128>, Vec<u64>))
    ensures
        r.0@ == values(obs@),
        r.1@ == gases(obs@),
        r.2@ == prices(obs@),
        r.3@ == heights(obs@),
{
    let mut vals: Vec<u128> = Vec::new();
    let mut gas: Vec<u128> = Vec::new();
    let mut price: Vec<u128> = Vec::new();
    let mut height: Vec<u64> = Vec::new();
    let mut i: usize = 0;
    while i < obs.len()
        invariant
            i <= obs.len(),
            vals@ == values(obs@.take(i as int)),
            gas@ == gases(obs@.take(i as int)),
            price@ == prices(obs@.take(i as int)),
            height@ == heights(obs@.take(i as int)),
        decreases obs.len() - i,
    {
        let o = obs[i];
        vals.push(o.value);
        gas.push(o.gas as u128);
        price.push(o.gas_price as u128);
        height.push(o.block_height);
        assert(obs@.take(i + 1) =~= obs@.take(i as int).push(o));
        assert(values(obs@.take(i + 1)) =~= values(obs@.take(i as int)).push(o.value));
        assert(gases(obs@.take(i + 1)) =~= gases(obs@.take(i as int)).push(o.gas as u128));
        assert(prices(obs@.take(i + 1)) =~= prices(obs@.take(i as int)).push(o.gas_price as u128));
        assert(heights(obs@.take(i + 1)) =~= heights(obs@.take(i as int)).push(o.block_height));
        i = i + 1;
    }
    assert(obs@.take(obs.len() as int) =~= obs@);
    (vals, gas, price, height)
}

proof fn lemma_min_le_max(h: Seq<u64>)
    requires
        h.len() > 0,
    ensures
        min_height(h) <= max_height(h),
        0 <= min_height(h),
        max_height(h) <= u64::MAX,
    decreases h.len(),
{
    if h.len() > 1 {
        lemma_min_le_max(h.drop_last());
    }
}

/// The span of block heights in `h`.
fn span(h: &Vec<u64>) -> (r: u64)
    ensures
        r == interval(h@),
{
    if h.len() == 0 {
        return 0;
    }
    let mut hi: u64 = h[0];
    let mut lo: u64 = h[0];
    let mut i: usize = 1;
    assert(h@.take(1).len() == 1);
    while i < h.len()
        invariant
            1 <= i <= h.len(),
            hi == max_height(h@.take(i as int)),
            lo == min_height(h@.take(i as int)),
        decreases h.len() - i,
    {
        assert(h@.take(i + 1).drop_last() =~= h@.take(i as int));
        if h[i] > hi {
            hi = h[i];
        }
        if h[i] < lo {
            lo = h[i];
        }
        i = i + 1;
    }
    assert(h@.take(h.len() as int) =~= h@);
    proof {
        lemma_min_le_max(h@);
    }
    hi - lo
}

fn stat_or_zero(num: u128, den: u128) -> (r: Stat)
    ensures
        r == ratio_or_zero(num as int, den as int),
{
    if den == 0 {
        Stat::Ratio { num: 0, den: 1 }
    } else {
        Stat::Ratio { num, den }
    }
}

fn stat_or_undefined(num: u128, den: u128) -> (r: Stat)
    ensures
        r == ratio_or_undefined(num as int, den as int),
{
    if den == 0 {
        Stat::Undefined
    } else {
        Stat::Ratio { num, den }
    }
}

fn concat(a: &Vec<TxObservation>, b: &Vec<TxObservation>) -> (r: Vec<TxObservation>)
    ensures
        r@ == a@ + b@,
{
    let mut r: Vec<TxObservation> = Vec::new();
    let mut i: usize = 0;
    while i < a.len()
        invariant
            i <= a.len(),
            r@ == a@.take(i as int),
        decreases a.len() - i,
    {
        r.push(a[i]);
        assert(a@.take(i + 1) =~= a@.take(i as int).push(a@[i as int]));
        i = i + 1;
    }
    let mut j: usize = 0;
    while j < b.len()
        invariant
            j <= b.len(),
            r@ == a@ + b@.take(j as int),
        decreases b.len() - j,
    {
        r.push(b[j]);
        assert(a@ + b@.take(j + 1) =~= (a@ + b@.take(j as int)).push(b@[j as int]));
        j = j + 1;
    }
    assert(a@.take(a.len() as int) =~= a@);
    assert(b@.take(b.len() as int) =~= b@);
    r
}

impl AddressFeature {
    /// The features of `addr` from its inbound sample `ins` and outbound
    /// sample `outs`; `None` exactly when some sum does not fit in 128 bits.
    pub fn new(addr: String, ins: &Vec<TxObservation>, outs: &Vec<TxObservation>) -> (r: Option<AddressFeature>)
        ensures
            r.is_some() <==> within_limits(ins@, outs@),
            r matches Some(f) ==> f == feature_spec(addr, ins@, outs@),
    {
        let all = concat(ins, outs);
        let (val_in, gas_in, price_in, height_in) = columns(ins);
        let (val_out, gas_out, price_out, height_out) = columns(outs);
        let (val_all, _gas_all, _price_all, height_all) = columns(&all);
        proof {
            lemma_total_nonneg(gases(ins@));
            lemma_total_nonneg(gases(outs@));
            lemma_total_nonneg(prices(ins@));
            lemma_total_nonneg(prices(outs@));
        }
        let sum_val_in = match total_of(&val_in) { Some(x) => x, None => { return None; } };
        let sum_val_out = match total_of(&val_out) { Some(x) => x, None => { return None; } };
        let gini_val_in = match gini(&val_in) { Some(g) => g, None => { return None; } };
        let gini_val_out = match gini(&val_out) { Some(g) => g, None => { return None; } };
        let gini_val = match gini(&val_all) { Some(g) => g, None => { return None; } };
        let sum_gas_in = match total_of(&gas_in) { Some(x) => x, None => { return None; } };
        let sum_gas_out = match total_of(&gas_out) { Some(x) => x, None => { return None; } };
        let sum_gas = match sum_gas_in.checked_add(sum_gas_out) { Some(x) => x, None => { return None; } };
        let sum_price_in = match total_of(&price_in) { Some(x) => x, None => { return None; } };
        let sum_price_out = match total_of(&price_out) { Some(x) => x, None => { return None; } };
        let sum_price = match sum_price_in.checked_add(sum_price_out) { Some(x) => x, None => { return None; } };
        let count_in = ins.len() as u128;
        let count_out = outs.len() as u128;
        let count = count_in + count_out;
        let interval_in = span(&height_in);
        let interval_out = span(&height_out);
        let interval = span(&height_all);
        Some(AddressFeature {
            addr,
            sum_val_in,
            sum_val_out,
            avg_val_in: stat_or_zero(sum_val_in, count_in),
            avg_val_out: stat_or_zero(sum_val_out, count_out),
            count,
            count_in,
            count_out,
            freq: stat_or_undefined(count, interval as u128),
            freq_in: stat_or_undefined(count_in, interval_in as u128),
            freq_out: stat_or_undefined(count_out, interval_out as u128),
            gini_val,
            gini_val_in,
            gini_val_out,
            avg_gas: stat_or_undefined(sum_gas, count),
            avg_gas_in: stat_or_undefined(sum_gas_in, count_in),
            avg_gas_out: stat_or_undefined(sum_gas_out, count_out),
            avg_gasprice: stat_or_undefined(sum_price, count),
            avg_gasprice_in: stat_or_undefined(sum_price_in, count_in),
            avg_gasprice_out: stat_or_undefined(sum_price_out, count_out),
            in_out_rate: stat_or_zero(count_in, count_out),
        })
    }
}

/// The edge touches `v_id` on the side it was fetched from.
pub open spec fn sample_intact(e: SampleEdge, side: Side, v_id: VertexId) -> bool {
    match side {
        Side::Outbound => e.outbound_id == v_id,
        Side::Inbound => e.inbound_id == v_id,
    }
}

/// The labels of the intact edges among `es`.
pub open spec fn taken_labels(v_id: VertexId, side: Side, es: Seq<SampleEdge>) -> Set<Seq<char>>
    decreases es.len(),
{
    if es.len() == 0 {
        Set::empty()
    } else if sample_intact(es.last(), side, v_id) {
        taken_labels(v_id, side, es.drop_last()).insert(es.last().label@)
    } else {
        taken_labels(v_id, side, es.drop_last())
    }
}

/// The sample that a batch of edges gives, in the store's order: each intact
/// edge whose label has not come before contributes its transaction detail,
/// when it has one.
pub open spec fn samples(v_id: VertexId, side: Side, es: Seq<SampleEdge>) -> Seq<TxObservation>
    decreases es.len(),
{
    if es.len() == 0 {
        seq![]
    } else {
        let e = es.last();
        let before = samples(v_id, side, es.drop_last());
        if sample_intact(e, side, v_id) && !taken_labels(v_id, side, es.drop_last()).contains(e.label@)
            && e.detail is Some {
            before.push(e.detail->Some_0)
        } else {
            before
        }
    }
}

/// The sample of one relation of vertex `v_id`: edges that do not touch the
/// vertex on that side, repeats of a label, and edges without detail are left
/// out.
pub fn collect_samples(v_id: VertexId, side: Side, edges: &Vec<SampleEdge>) -> (r: Vec<TxObservation>)
    ensures
        r@ == samples(v_id, side, edges@),
{
    let mut seen = LabelSet::new();
    let mut r: Vec<TxObservation> = Vec::new();
    let mut i: usize = 0;
    while i < edges.len()
        invariant
            i <= edges.len(),
            seen@ == taken_labels(v_id, side, edges@.take(i as int)),
            r@ == samples(v_id, side, edges@.take(i as int)),
        decreases edges.len() - i,
    {
        let e = &edges[i];
        assert(edges@.take(i + 1).drop_last() =~= edges@.take(i as int));
        let intact = match side {
            Side::Outbound => e.outbound_id == v_id,
            Side::Inbound => e.inbound_id == v_id,
        };
        if intact {
            if !seen.contains(&e.label) {
                if let Some(d) = e.detail {
                    r.push(d);
                }
            }
            seen.insert(e.label.clone());
        }
        i = i + 1;
    }
    assert(edges@.take(edges.len() as int) =~= edges@);
    r
}

/// The features of the vertex `v_id` labelled `addr`, from its outbound and
/// inbound edges with their transaction details.
pub fn vertex_features(
    addr: String,
    v_id: VertexId,
    out_edges: &Vec<SampleEdge>,
    in_edges: &Vec<SampleEdge>,
) -> (r: Option<AddressFeature>)
    ensures
        r.is_some() <==> within_limits(
            samples(v_id, Side::Inbound, in_edges@),
            samples(v_id, Side::Outbound, out_edges@),
        ),
        r matches Some(f) ==> f == feature_spec(
            addr,
            samples(v_id, Side::Inbound, in_edges@),
            samples(v_id, Side::Outbound, out_edges@),
        ),
{
    let outs = collect_samples(v_id, Side::Outbound, out_edges);
    let ins = collect_samples(v_id, Side::Inbound, in_edges);
    AddressFeature::new(addr, &ins, &outs)
}

/// An edge whose label already came before adds nothing to a sample.
pub proof fn lemma_repeated_label_ignored(v_id: VertexId, side: Side, es: Seq<SampleEdge>, e: SampleEdge)
    requires
        exists|i: int| 0 <= i < es.len() && sample_intact(#[trigger] es[i], side, v_id) && es[i].label@ == e.label@,
    ensures
        samples(v_id, side, es.push(e)) == samples(v_id, side, es),
{
    let i = choose|i: int| 0 <= i < es.len() && sample_intact(#[trigger] es[i], side, v_id) && es[i].label@ == e.label@;
    lemma_taken_labels_has(v_id, side, es, i);
    assert(es.push(e).drop_last() =~= es);
}

proof fn lemma_taken_labels_has(v_id: VertexId, side: Side, es: Seq<SampleEdge>, i: int)
    requires
        0 <= i < es.len(),
        sample_intact(es[i], side, v_id),
    ensures
        taken_labels(v_id, side, es).contains(es[i].label@),
    decreases es.len(),
{
    if i < es.len() - 1 {
        lemma_taken_labels_has(v_id, side, es.drop_last(), i);
    }
}

proof fn lemma_constant_sums(t: Seq<u128>, c: u128)
    requires
        forall|i: int| 0 <= i < t.len() ==> #[trigger] t[i] == c,
    ensures
        total(t) == t.len() * c,
        2 * cum_total(t) == t.len() * (t.len() + 1) * c,
    decreases t.len(),
{
    if t.len() > 0 {
        lemma_constant_sums(t.drop_last(), c);
        let m = t.len() as int;
        let pc = cum_total(t.drop_last());
        assert(total(t) == (m - 1) * c + c);
        assert((m - 1) * c + c == m * c) by (nonlinear_arith);
        assert(2 * pc == (m - 1) * m * c);
        assert((m - 1) * m * c + 2 * (m * c) == m * (m + 1) * c) by (nonlinear_arith);
    }
}

/// A sample of equal values has Gini coefficient zero:
/// `(count + 1) * total == 2 * cumulative`, so the numerator over
/// `count * total` vanishes. An empty sample has no coefficient.
pub proof fn lemma_gini_of_equal_values(s: Seq<u128>)
    requires
        forall|i: int| 0 <= i < s.len() ==> #[trigger] s[i] == s[0],
        s.len() > 0 ==> fits(cum_total(sorted_values(s))),
    ensures
        s.len() == 0 ==> gini_of(s) == Gini::Undefined,
        s.len() > 0 ==> gini_numerator(gini_of(s)) == 0,
{
    if s.len() > 0 {
        let leq = value_leq();
        assert(total_ordering(leq));
        s.lemma_sort_by_ensures(leq);
        assert(sorted_by(s, leq));
        lemma_sorted_unique(s, sorted_values(s), leq);
        let c = s[0];
        let n = s.len() as int;
        lemma_constant_sums(s, c);
        lemma_total_le_cum(s);
        if c == 0 {
            assert(n * c == 0) by (nonlinear_arith) requires c == 0;
            assert(n * (n + 1) * c == 0) by (nonlinear_arith) requires c == 0;
        } else {
            assert(n <= n * c) by (nonlinear_arith) requires c >= 1, n >= 1;
        }
        let g = gini_of(s);
        assert(g == Gini::Sums { count: n as u128, total: (n * c) as u128, cumulative: cum_total(s) as u128 });
        assert((n + 1) * (n * c) == n * (n + 1) * c) by (nonlinear_arith);
        if c == 0 {
            assert((g->count + 1) * g->total == 0) by (nonlinear_arith) requires g->total == 0;
        }
    }
}

proof fn lemma_constant_heights(h: Seq<u64>)
    requires
        h.len() > 0,
        forall|i: int| 0 <= i < h.len() ==> #[trigger] h[i] == h[0],
    ensures
        max_height(h) == h[0],
        min_height(h) == h[0],
    decreases h.len(),
{
    if h.len() > 1 {
        lemma_constant_heights(h.drop_last());
    }
}

/// The degenerate cases of the rollup: with no inbound transactions the
/// average inbound value is 0; when all inbound transactions share one block
/// height the inbound frequency is undefined; with no outbound transactions
/// the in/out rate is 0.
pub proof fn lemma_degenerate_policies(addr: String, ins: Seq<TxObservation>, outs: Seq<TxObservation>)
    ensures
        ins.len() == 0 ==> feature_spec(addr, ins, outs).avg_val_in == (Stat::Ratio { num: 0, den: 1 }),
        (forall|i: int| 0 <= i < ins.len() ==> (#[trigger] ins[i]).block_height == ins[0].block_height)
            ==> feature_spec(addr, ins, outs).freq_in == (Stat::Undefined),
        outs.len() == 0 ==> feature_spec(addr, ins, outs).in_out_rate == (Stat::Ratio { num: 0, den: 1 }),
{
    if ins.len() > 0 && (forall|i: int| 0 <= i < ins.len() ==> (#[trigger] ins[i]).block_height == ins[0].block_height) {
        let h = heights(ins);
        assert forall|i: int| 0 <= i < h.len() implies #[trigger] h[i] == h[0] by {
            assert(ins[i].block_height == ins[0].block_height);
        }
        lemma_constant_heights(h);
    }
}

} // verus!
