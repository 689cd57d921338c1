use divera_status::cycle::{loop_step, parse_order, resolve, Direction, OrderError};
use divera_status::types::Update;

#[test]
fn resolve_is_total_and_wraps() {
    let order: Vec<u32> = vec![4, 1, 2, 3];
    assert_eq!(resolve(&order, 3, Direction::Next), 4);
    assert_eq!(resolve(&order, 3, Direction::Previous), 2);
    assert_eq!(resolve(&order, 4, Direction::Next), 1);
    assert_eq!(resolve(&order, 4, Direction::Previous), 3);
}

#[test]
fn resolve_unknown_current_starts_before_first() {
    let order: Vec<u32> = vec![4, 1, 2, 3];
    // 9 is not in the order: the synthetic position is before element 0
    assert_eq!(resolve(&order, 9, Direction::Next), 1);
    assert_eq!(resolve(&order, 9, Direction::Previous), 3);
}

#[test]
fn resolve_single_element_order() {
    let order: Vec<u32> = vec![5];
    assert_eq!(resolve(&order, 5, Direction::Next), 5);
    assert_eq!(resolve(&order, 5, Direction::Previous), 5);
    assert_eq!(resolve(&order, 7, Direction::Next), 5);
}

#[test]
fn resolve_round_trip_returns() {
    let order: Vec<u32> = vec![4, 1, 2, 3];
    for &current in &[4u32, 1, 2, 3] {
        let forward = resolve(&order, current, Direction::Next);
        assert_eq!(resolve(&order, forward, Direction::Previous), current);
    }
}

#[test]
fn parse_order_accepts_id_list() {
    assert_eq!(parse_order("4,1,2,3"), Ok(vec![4, 1, 2, 3]));
    assert_eq!(parse_order("7"), Ok(vec![7]));
    assert_eq!(parse_order("+7,0"), Ok(vec![7, 0]));
    assert_eq!(parse_order("4294967295"), Ok(vec![u32::MAX]));
}

#[test]
fn parse_order_rejects_bad_tokens() {
    assert_eq!(parse_order(""), Err(OrderError::InvalidId("".to_string())));
    assert_eq!(
        parse_order("4,x,2"),
        Err(OrderError::InvalidId("x".to_string()))
    );
    assert_eq!(
        parse_order("1,,2"),
        Err(OrderError::InvalidId("".to_string()))
    );
    assert_eq!(
        parse_order("4294967296"),
        Err(OrderError::InvalidId("4294967296".to_string()))
    );
    assert_eq!(
        parse_order("1, 2"),
        Err(OrderError::InvalidId(" 2".to_string()))
    );
}

#[test]
fn loop_step_writes_only_on_cycle_requests() {
    let order: Vec<u32> = vec![4, 1, 2, 3];
    assert_eq!(loop_step(&order, 3, None), None);
    assert_eq!(loop_step(&order, 3, Some(Update::Reload)), None);
    assert_eq!(loop_step(&order, 3, Some(Update::StatusNext)), Some(4));
    assert_eq!(loop_step(&order, 3, Some(Update::StatusPrev)), Some(2));
}
