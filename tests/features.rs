use txgraph::features::{collect_samples, cumsum, gini, vertex_features, AddressFeature, Gini, SampleEdge, Stat, TxObservation};
use txgraph::traversal::Side;

fn obs(value: u128, block_height: u64, gas: u64, gas_price: u64) -> TxObservation {
    TxObservation { value, block_height, gas, gas_price }
}

fn coefficient(g: Gini) -> f64 {
    match g {
        Gini::Undefined => f64::NAN,
        Gini::Sums { count, total, cumulative } => {
            let n = count as f64;
            ((n + 1.) - (2. * cumulative as f64) / total as f64) / n
        }
    }
}

#[test]
fn gini_of_equal_values_is_zero() {
    let g = gini(&vec![1, 1, 1, 1]).unwrap();
    assert_eq!(g, Gini::Sums { count: 4, total: 4, cumulative: 10 });
    assert_eq!(coefficient(g), 0.0);
}

#[test]
fn gini_of_one_nonzero_value_follows_the_formula() {
    let g = gini(&vec![0, 0, 0, 1]).unwrap();
    assert_eq!(g, Gini::Sums { count: 4, total: 1, cumulative: 1 });
    assert_eq!(coefficient(g), 0.75);
}

#[test]
fn gini_of_empty_sample_is_undefined() {
    let g = gini(&Vec::new()).unwrap();
    assert_eq!(g, Gini::Undefined);
    assert!(coefficient(g).is_nan());
}

#[test]
fn gini_sorts_before_summing() {
    assert_eq!(gini(&vec![3, 1, 2]).unwrap(), Gini::Sums { count: 3, total: 6, cumulative: 10 });
}

#[test]
fn gini_reports_overflow() {
    assert_eq!(gini(&vec![u128::MAX / 2, u128::MAX / 2]), None);
}

#[test]
fn cumsum_gives_running_sums() {
    assert_eq!(cumsum(&vec![1, 2, 3]), Some(vec![1, 3, 6]));
    assert_eq!(cumsum(&Vec::new()), Some(Vec::new()));
    assert_eq!(cumsum(&vec![u128::MAX, 1]), None);
}

#[test]
fn features_of_a_small_sample() {
    let ins = vec![obs(10, 100, 21000, 5), obs(30, 104, 30000, 7)];
    let outs = vec![obs(5, 102, 50000, 9)];
    let f = AddressFeature::new("0xabc".to_string(), &ins, &outs).unwrap();
    assert_eq!(f.addr, "0xabc");
    assert_eq!(f.count_in, 2);
    assert_eq!(f.count_out, 1);
    assert_eq!(f.count, 3);
    assert_eq!(f.sum_val_in, 40);
    assert_eq!(f.sum_val_out, 5);
    assert_eq!(f.avg_val_in, Stat::Ratio { num: 40, den: 2 });
    assert_eq!(f.avg_val_out, Stat::Ratio { num: 5, den: 1 });
    assert_eq!(f.freq, Stat::Ratio { num: 3, den: 4 });
    assert_eq!(f.freq_in, Stat::Ratio { num: 2, den: 4 });
    assert_eq!(f.freq_out, Stat::Undefined);
    assert_eq!(f.gini_val_in, Gini::Sums { count: 2, total: 40, cumulative: 50 });
    assert_eq!(f.gini_val_out, Gini::Sums { count: 1, total: 5, cumulative: 5 });
    assert_eq!(f.gini_val, Gini::Sums { count: 3, total: 45, cumulative: 65 });
    assert_eq!(f.avg_gas, Stat::Ratio { num: 101000, den: 3 });
    assert_eq!(f.avg_gas_in, Stat::Ratio { num: 51000, den: 2 });
    assert_eq!(f.avg_gas_out, Stat::Ratio { num: 50000, den: 1 });
    assert_eq!(f.avg_gasprice, Stat::Ratio { num: 21, den: 3 });
    assert_eq!(f.avg_gasprice_in, Stat::Ratio { num: 12, den: 2 });
    assert_eq!(f.avg_gasprice_out, Stat::Ratio { num: 9, den: 1 });
    assert_eq!(f.in_out_rate, Stat::Ratio { num: 2, den: 1 });
}

#[test]
fn degenerate_samples_follow_the_policies() {
    let ins: Vec<TxObservation> = Vec::new();
    let outs: Vec<TxObservation> = Vec::new();
    let f = AddressFeature::new("x".to_string(), &ins, &outs).unwrap();
    assert_eq!(f.avg_val_in, Stat::Ratio { num: 0, den: 1 });
    assert_eq!(f.avg_val_out, Stat::Ratio { num: 0, den: 1 });
    assert_eq!(f.in_out_rate, Stat::Ratio { num: 0, den: 1 });
    assert_eq!(f.freq, Stat::Undefined);
    assert_eq!(f.gini_val, Gini::Undefined);
    assert_eq!(f.avg_gas, Stat::Undefined);
    assert_eq!(f.avg_gas_in, Stat::Undefined);
    assert_eq!(f.avg_gasprice, Stat::Undefined);
}

#[test]
fn equal_heights_leave_frequency_undefined() {
    let ins = vec![obs(1, 500, 1, 1), obs(2, 500, 1, 1), obs(3, 500, 1, 1)];
    let f = AddressFeature::new("x".to_string(), &ins, &Vec::new()).unwrap();
    assert_eq!(f.freq_in, Stat::Undefined);
    assert_eq!(f.freq, Stat::Undefined);
    assert_eq!(f.in_out_rate, Stat::Ratio { num: 0, den: 1 });
    assert_eq!(f.avg_gas_out, Stat::Undefined);
}

#[test]
fn oversized_sums_are_refused() {
    let ins = vec![obs(u128::MAX, 1, 1, 1), obs(1, 2, 1, 1)];
    assert!(AddressFeature::new("x".to_string(), &ins, &Vec::new()).is_none());
}

fn edge(from: u128, to: u128, label: &str, detail: Option<TxObservation>) -> SampleEdge {
    SampleEdge { outbound_id: from, inbound_id: to, label: label.to_string(), detail }
}

#[test]
fn repeated_outbound_label_is_sampled_once() {
    let v = 7u128;
    let edges = vec![edge(v, 8, "dup", Some(obs(10, 1, 1, 1))), edge(v, 9, "dup", Some(obs(99, 2, 1, 1)))];
    let s = collect_samples(v, Side::Outbound, &edges);
    assert_eq!(s, vec![obs(10, 1, 1, 1)]);
    let f = vertex_features("v".to_string(), v, &edges, &Vec::new()).unwrap();
    assert_eq!(f.count_out, 1);
    assert_eq!(f.sum_val_out, 10);
}

#[test]
fn samples_skip_foreign_and_bare_edges() {
    let v = 7u128;
    let edges = vec![
        edge(8, v, "a", Some(obs(1, 1, 1, 1))),
        edge(3, 4, "b", Some(obs(2, 2, 2, 2))),
        edge(9, v, "c", None),
        edge(9, v, "d", Some(obs(4, 4, 4, 4))),
    ];
    let s = collect_samples(v, Side::Inbound, &edges);
    assert_eq!(s, vec![obs(1, 1, 1, 1), obs(4, 4, 4, 4)]);
    assert!(collect_samples(v, Side::Outbound, &edges).is_empty());
}
