use imbue::{average, last_known, rocket, zeroed, DataPoint, ImbueContext, ImbueError, ImbueStrategy};

fn dp(x: i64, y: f64) -> DataPoint {
    DataPoint::new(x, y.to_bits())
}

fn ctx(dataset: Vec<DataPoint>) -> ImbueContext {
    ImbueContext::new(dataset).unwrap()
}

#[test]
fn test_average_imbue() {
    let dataset = vec![dp(1, 123.0), dp(5, 43.0)];
    let context = ctx(dataset);
    let imbued_dataset = average(&context);

    let expected_dataset: Vec<DataPoint> = vec![dp(2, 103.0), dp(3, 83.0), dp(4, 63.0)];
    assert_eq!(imbued_dataset, expected_dataset);
}

#[test]
fn test_average_imbue_with_multiple_consecutive_missing_groups() {
    let dataset = vec![dp(1, 123.0), dp(5, 43.0), dp(8, 80.0)];
    let context = ctx(dataset);
    let imbued_dataset = average(&context);

    let expected_dataset: Vec<DataPoint> = vec![
        dp(2, 103.0),
        dp(3, 83.0),
        dp(4, 63.0),
        dp(6, 55.333333333333336),
        dp(7, 67.66666666666667),
    ];
    assert_eq!(imbued_dataset, expected_dataset);
}

#[test]
fn test_average_imbue_with_flat_average() {
    let dataset = vec![dp(1, 123.0), dp(5, 123.0)];
    let context = ctx(dataset);
    let imbued_dataset = average(&context);

    let expected_dataset: Vec<DataPoint> = vec![dp(2, 123.0), dp(3, 123.0), dp(4, 123.0)];
    assert_eq!(imbued_dataset, expected_dataset);
}

#[test]
fn test_zeroed_imbue() {
    let dataset = vec![dp(1, 123.0), dp(5, 43.0)];
    let context = ctx(dataset);
    let imbued_dataset = zeroed(&context);

    let expected_dataset = vec![dp(2, 0.0), dp(3, 0.0), dp(4, 0.0)];
    assert_eq!(imbued_dataset, expected_dataset);
}

#[test]
fn test_zeroed_imbue_with_negative_values() {
    let dataset = vec![dp(-5, 67.0), dp(1, 123.0), dp(5, 43.0)];
    let context = ctx(dataset);
    let imbued_dataset = zeroed(&context);

    let expected_dataset = vec![
        dp(-4, 0.0),
        dp(-3, 0.0),
        dp(-2, 0.0),
        dp(-1, 0.0),
        dp(0, 0.0),
        dp(2, 0.0),
        dp(3, 0.0),
        dp(4, 0.0),
    ];
    assert_eq!(imbued_dataset, expected_dataset);
}

#[test]
fn test_last_known_imbue() {
    let dataset = vec![dp(7, 84.0), dp(1, 123.0), dp(4, 56.0)];
    let context = ctx(dataset);
    let imbued_dataset = last_known(&context);

    let expected_dataset: Vec<DataPoint> =
        vec![dp(2, 123.0), dp(3, 123.0), dp(5, 56.0), dp(6, 56.0)];
    assert_eq!(imbued_dataset, expected_dataset);
}

#[test]
fn test_last_known_imbue_with_negative_values() {
    let dataset = vec![dp(-2, 50.5), dp(1, 123.0), dp(4, 56.0), dp(7, 84.0)];
    let context = ctx(dataset);
    let imbued_dataset = last_known(&context);

    let expected_dataset: Vec<DataPoint> = vec![
        dp(-1, 50.5),
        dp(0, 50.5),
        dp(2, 123.0),
        dp(3, 123.0),
        dp(5, 56.0),
        dp(6, 56.0),
    ];
    assert_eq!(imbued_dataset, expected_dataset);
}

#[test]
fn test_context_counts() {
    let context = ctx(vec![dp(1, 123.0), dp(5, 43.0)]);
    assert_eq!(context.total_count, 5);
    assert_eq!(context.imbue_count, 3);
    assert_eq!(context.axis_min, 1);
    assert_eq!(context.axis_max, 5);
}

#[test]
fn test_axis_range() {
    let context = ctx(vec![dp(-3, 1.0), dp(4, 2.0)]);
    let range = context.axis_range();
    assert_eq!(*range.start(), -3);
    assert_eq!(*range.end(), 4);
}

#[test]
fn test_known_x() {
    let context = ctx(vec![dp(-3, 1.0), dp(4, 2.0)]);
    let known = context.known_x();
    assert!(known.contains(&-3));
    assert!(known.contains(&4));
    assert!(!known.contains(&0));
    assert_eq!(known.len(), 2);
}

#[test]
fn test_empty_dataset_rejected() {
    let result = ImbueContext::new(Vec::new());
    assert_eq!(result.unwrap_err(), ImbueError::EmptyDataset);
}

#[test]
fn test_duplicate_position_rejected() {
    let result = ImbueContext::new(vec![dp(2, 1.0), dp(3, 4.0), dp(2, 5.0)]);
    assert_eq!(result.unwrap_err(), ImbueError::DuplicatePosition);
}

#[test]
fn test_range_too_wide_rejected() {
    let result = ImbueContext::new(vec![dp(i64::MIN, 1.0), dp(i64::MAX, 2.0)]);
    assert_eq!(result.unwrap_err(), ImbueError::RangeTooWide);
}

#[test]
fn test_dense_dataset_yields_nothing() {
    let context = ctx(vec![dp(1, 9.0), dp(2, 8.0), dp(3, 7.0)]);
    assert_eq!(context.imbue_count, 0);
    assert!(average(&context).is_empty());
    assert!(zeroed(&context).is_empty());
    assert!(last_known(&context).is_empty());
}

#[test]
fn test_single_point_dataset() {
    let context = ctx(vec![dp(5, 99.0)]);
    assert_eq!(context.total_count, 1);
    assert_eq!(context.imbue_count, 0);
    assert!(average(&context).is_empty());
}

#[test]
fn test_zeroed_values_decode_to_zero() {
    let context = ctx(vec![dp(10, 3.5), dp(13, -3.5)]);
    let imbued_dataset = zeroed(&context);
    assert_eq!(imbued_dataset.len(), 2);
    for point in imbued_dataset {
        assert_eq!(f64::from_bits(point.y), 0.0);
    }
}

#[test]
fn test_average_single_gap_midpoint() {
    let dataset = vec![dp(1, 10.0), dp(3, 20.0)];
    let context = ctx(dataset);
    let imbued_dataset = average(&context);
    assert_eq!(imbued_dataset, vec![dp(2, 15.0)]);
}

#[test]
fn test_average_runs_are_monotonic_between_boundaries() {
    let context = ctx(vec![dp(1, 123.0), dp(5, 43.0), dp(8, 80.0)]);
    let imbued = average(&context);
    let values: Vec<f64> = imbued.iter().map(|p| f64::from_bits(p.y)).collect();
    // Positions 2, 3, 4 descend from 123 toward 43; positions 6, 7 ascend
    // from 43 toward 80; no synthesized value lands on a boundary value.
    assert!(values[0] > values[1] && values[1] > values[2]);
    assert!(values[3] < values[4]);
    for v in &values {
        assert!(*v != 123.0 && *v != 43.0 && *v != 80.0);
    }
}

#[test]
fn test_rocket_dispatches_selected_strategy() {
    let dataset = vec![dp(1, 123.0), dp(5, 43.0)];
    let imbued = rocket(dataset.clone(), ImbueStrategy::Average).unwrap();
    assert_eq!(imbued, vec![dp(2, 103.0), dp(3, 83.0), dp(4, 63.0)]);
    let imbued = rocket(dataset.clone(), ImbueStrategy::Zeroed).unwrap();
    assert_eq!(imbued, vec![dp(2, 0.0), dp(3, 0.0), dp(4, 0.0)]);
    let imbued = rocket(dataset, ImbueStrategy::LastKnown).unwrap();
    assert_eq!(imbued, vec![dp(2, 123.0), dp(3, 123.0), dp(4, 123.0)]);
}

#[test]
fn test_rocket_rejects_empty_dataset() {
    let result = rocket(Vec::new(), ImbueStrategy::Zeroed);
    assert_eq!(result.unwrap_err(), ImbueError::EmptyDataset);
}

#[test]
fn test_last_known_carries_most_recent_value() {
    let dataset = vec![dp(-3, 7.0), dp(0, 2.5), dp(2, 4.0)];
    let context = ctx(dataset);
    let imbued_dataset = last_known(&context);
    assert_eq!(imbued_dataset, vec![dp(-2, 7.0), dp(-1, 7.0), dp(1, 2.5)]);
}
