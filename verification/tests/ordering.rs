use cucumber::runner::ordering::OrderingBuffer;

#[test]
fn results_in_order_pass_straight_through() {
    let mut buffer = OrderingBuffer::new();
    assert_eq!(buffer.next_position(), 0);
    assert_eq!(buffer.push(0, "a"), Ok(vec![(0, "a")]));
    assert_eq!(buffer.push(1, "b"), Ok(vec![(1, "b")]));
    assert_eq!(buffer.next_position(), 2);
    assert_eq!(buffer.pending_len(), 0);
}

#[test]
fn a_late_result_holds_the_later_ones_back() {
    let mut buffer = OrderingBuffer::new();
    assert_eq!(buffer.push(2, "c"), Ok(vec![]));
    assert_eq!(buffer.push(1, "b"), Ok(vec![]));
    assert_eq!(buffer.push(4, "e"), Ok(vec![]));
    assert_eq!(buffer.pending_len(), 3);
    assert_eq!(buffer.next_position(), 0);
    assert_eq!(buffer.push(0, "a"), Ok(vec![(0, "a"), (1, "b"), (2, "c")]));
    assert_eq!(buffer.pending_len(), 1);
    assert_eq!(buffer.next_position(), 3);
    assert_eq!(buffer.push(3, "d"), Ok(vec![(3, "d"), (4, "e")]));
    assert_eq!(buffer.pending_len(), 0);
    assert_eq!(buffer.next_position(), 5);
}

#[test]
fn a_position_is_taken_once() {
    let mut buffer = OrderingBuffer::new();
    assert_eq!(buffer.push(1, "b"), Ok(vec![]));
    assert_eq!(buffer.push(1, "again"), Err((1, "again")));
    assert_eq!(buffer.push(0, "a"), Ok(vec![(0, "a"), (1, "b")]));
    assert_eq!(buffer.push(0, "late"), Err((0, "late")));
    assert_eq!(buffer.push(1, "late"), Err((1, "late")));
    assert_eq!(buffer.push(u64::MAX, "last"), Err((u64::MAX, "last")));
    assert_eq!(buffer.next_position(), 2);
    assert_eq!(buffer.pending_len(), 0);
}

fn shuffled(n: u64, seed: u64) -> Vec<u64> {
    let mut order: Vec<u64> = (0..n).collect();
    let mut state = seed;
    for i in (1..order.len()).rev() {
        state = state.wrapping_mul(6364136223846793005).wrapping_add(1442695040888963407);
        let j = (state >> 33) as usize % (i + 1);
        order.swap(i, j);
    }
    order
}

#[test]
fn any_order_of_arrival_comes_out_in_declaration_order() {
    for seed in 0..50 {
        let n = 1 + seed % 17;
        let mut buffer = OrderingBuffer::new();
        let mut out = Vec::new();
        for position in shuffled(n, seed) {
            let released = buffer.push(position, position * 10).unwrap();
            out.extend(released);
        }
        let expected: Vec<(u64, u64)> = (0..n).map(|p| (p, p * 10)).collect();
        assert_eq!(out, expected);
        assert_eq!(buffer.pending_len(), 0);
        assert_eq!(buffer.next_position(), n);
    }
}
