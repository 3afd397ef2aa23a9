//! Port ordering: serial and random range walks, explicit lists, and the
//! linear congruential range iterator.
use rustscan::input::{PortRange, ScanOrder};
use rustscan::port_strategy::PortStrategy;
use rustscan::range_iterator::RangeIterator;

#[test]
fn serial_strategy_with_range() {
    let expected_range: Vec<u16> = (1..=100).collect();

    let strategy = PortStrategy::range(PortRange { start: 1, end: 100 }, ScanOrder::Serial);
    assert_eq!(expected_range, strategy.iter());
}

#[test]
fn random_strategy_with_range() {
    let range: Vec<u16> = (1..=100).collect();

    let strategy = PortStrategy::range(PortRange { start: 1, end: 100 }, ScanOrder::Random);

    assert_ne!(range, strategy.iter());
    let mut sorted = strategy.iter();
    sorted.sort();
    assert_eq!(range, sorted);
}

#[test]
fn serial_strategy_with_ports() {
    let list = vec![80, 443];
    let strategy = PortStrategy::list(list.clone(), ScanOrder::Serial);
    let result = strategy.iter();
    assert_eq!(list, result);
}

#[test]
fn random_strategy_with_ports() {
    let expected_range: Vec<u16> = (1..300).collect();

    let strategy = PortStrategy::list(expected_range.clone(), ScanOrder::Random);

    assert_ne!(expected_range, strategy.iter());
    let mut sorted = strategy.iter();
    sorted.sort();
    assert_eq!(expected_range, sorted);
}

#[test]
fn range_iterator_iterates_through_the_entire_range() {
    let result = generate_sorted_range(1, 10);
    let expected_range = (1..10).collect::<Vec<u16>>();
    assert_eq!(expected_range, result);

    let result = generate_sorted_range(1, 100);
    let expected_range = (1..100).collect::<Vec<u16>>();
    assert_eq!(expected_range, result);

    let result = generate_sorted_range(1, 1000);
    let expected_range = (1..1000).collect::<Vec<u16>>();
    assert_eq!(expected_range, result);

    let result = generate_sorted_range(1, 65_535);
    let expected_range = (1..65_535).collect::<Vec<u16>>();
    assert_eq!(expected_range, result);

    let result = generate_sorted_range(1000, 2000);
    let expected_range = (1000..2000).collect::<Vec<u16>>();
    assert_eq!(expected_range, result);
}

fn generate_sorted_range(start: u32, end: u32) -> Vec<u16> {
    let mut range = RangeIterator::new(start, end);
    let mut result: Vec<u16> = Vec::new();
    while let Some(port) = range.next() {
        result.push(port);
    }
    result.sort();

    result
}

#[test]
fn pick_prefers_the_explicit_list() {
    let strategy = PortStrategy::pick(
        &Some(PortRange { start: 1, end: 10 }),
        Some(vec![8080, 80]),
        ScanOrder::Serial,
    );
    assert_eq!(strategy.iter(), vec![8080, 80]);
}

#[test]
fn pick_falls_back_to_the_full_range() {
    let strategy = PortStrategy::pick(&None, None, ScanOrder::Serial);
    let ports = strategy.iter();
    assert_eq!(ports.len(), 65_535);
    assert_eq!(ports[0], 1);
    assert_eq!(ports[65_534], 65_535);
}

#[test]
fn inverted_range_is_empty() {
    let strategy = PortStrategy::range(PortRange { start: 10, end: 2 }, ScanOrder::Serial);
    assert!(strategy.iter().is_empty());
}
