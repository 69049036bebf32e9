use hardlight::expand::{connection_state, rpc, MethodArg, ServiceItem};
use hardlight::stats::{
    average, can_summarise, checked_sum, line_graph, percentile_height, percentiles, sort, summarise, Summary,
};

fn method(name: &str, args: Vec<MethodArg>) -> ServiceItem {
    ServiceItem::Method { name: name.to_string(), args }
}

#[test]
fn every_method_gets_a_variant_in_order() {
    let items = vec![
        method("become_dog", vec![MethodArg::Receiver, MethodArg::Named, MethodArg::Named]),
        ServiceItem::Other,
        method("make_a_noise", vec![MethodArg::Receiver]),
    ];
    let plan = rpc("", "PetService", &items);
    assert!(plan.server_handler);
    assert_eq!(plan.client_name, "PetServiceClient");
    assert_eq!(plan.methods.len(), 2);
    assert_eq!(plan.methods[0].item, 0);
    assert_eq!(plan.methods[0].method, "become_dog");
    assert_eq!(plan.methods[0].variant, "BecomeDog");
    assert_eq!(plan.methods[0].fields, vec![1, 2]);
    assert_eq!(plan.methods[0].params, vec![1, 2]);
    assert_eq!(plan.methods[1].item, 2);
    assert_eq!(plan.methods[1].variant, "MakeANoise");
    assert!(plan.methods[1].fields.is_empty());
}

#[test]
fn handler_is_left_out_on_request() {
    let items = vec![];
    assert!(!rpc("no_server_handler", "Counter", &items).server_handler);
    assert!(!rpc("a, no_server_handler, b", "Counter", &items).server_handler);
    assert!(rpc("no_server", "Counter", &items).server_handler);
    assert!(rpc("no_server_handlex", "Counter", &items).server_handler);
}

#[test]
fn patterns_are_bound_but_are_no_fields() {
    let items = vec![method("go", vec![MethodArg::Receiver, MethodArg::Pattern, MethodArg::Named])];
    let plan = rpc("", "Counter", &items);
    assert_eq!(plan.methods[0].fields, vec![2]);
    assert_eq!(plan.methods[0].params, vec![1, 2]);
}

#[test]
fn state_fields_are_numbered() {
    let fields = vec![Some("counter".to_string()), Some("topic".to_string())];
    let plan = connection_state(&fields);
    assert_eq!(plan, vec![(0, "counter".to_string()), (1, "topic".to_string())]);
}

#[test]
fn summary_of_timings() {
    let mut timings = vec![9u128, 1, 4, 6];
    assert_eq!(average(&timings), 5);
    sort(&mut timings);
    assert_eq!(timings, vec![1, 4, 6, 9]);
    assert_eq!(
        summarise(&timings),
        Summary { med: 6, avg: 5, std_dev: 8, min: 1, max: 9 }
    );
    assert_eq!(
        summarise(&vec![7]),
        Summary { med: 7, avg: 7, std_dev: 0, min: 7, max: 7 }
    );
}

#[test]
fn percentiles_of_timings() {
    let timings: Vec<u128> = (0..200).collect();
    let points = percentiles(&timings);
    assert_eq!(points.len(), 100);
    assert_eq!(points[0], (0, 0));
    assert_eq!(points[50], (50, 100));
    assert_eq!(points[99], (99, 198));
    let few = percentiles(&vec![3, 8]);
    assert_eq!(few[49], (49, 3));
    assert_eq!(few[50], (50, 8));
    for pair in few.windows(2) {
        assert!(pair[0].1 <= pair[1].1);
    }
}

#[test]
fn layout_of_the_line_graph() {
    let graph = line_graph(&vec![9, 1, 5], 3);
    assert_eq!(graph.width, 3);
    assert_eq!(graph.height, 19);
    assert_eq!(graph.points, vec![(0, 9), (1, 1), (2, 5)]);
    assert_eq!(graph.average, [(0, 5), (3, 5)]);
    assert_eq!(graph.below, [(0, 2), (3, 2)]);
    assert_eq!(graph.above, [(0, 8), (3, 8)]);
}

#[test]
fn sums_that_do_not_fit_are_told() {
    assert_eq!(checked_sum(&vec![]), Some(0));
    assert_eq!(checked_sum(&vec![3, 4]), Some(7));
    assert_eq!(checked_sum(&vec![u128::MAX, 0]), Some(u128::MAX));
    assert_eq!(checked_sum(&vec![u128::MAX, 1]), None);
}

#[test]
fn timings_that_can_be_summarised() {
    assert!(can_summarise(&vec![1, 4, 6, 9]));
    assert!(!can_summarise(&vec![]));
    assert!(!can_summarise(&vec![u128::MAX, 1]));
    assert!(!can_summarise(&vec![u128::MAX]));
    assert!(can_summarise(&vec![i128::MAX as u128]));
    assert!(can_summarise(&vec![0, 1 << 64]));
    assert!(!can_summarise(&vec![0, 1 << 66]));
}

#[test]
fn percentile_graph_ends_near_the_top() {
    let timings: Vec<u128> = (0..20000).collect();
    assert_eq!(percentile_height(&timings), 19998);
    assert_eq!(percentile_height(&vec![3, 8]), 8);
    assert_eq!(percentile_height(&vec![5]), 5);
}
