use tetris::bag::next_batch;
use tetris::shape::Shape;

fn index(s: Shape) -> usize {
    match s {
        Shape::T => 0,
        Shape::Z => 1,
        Shape::S => 2,
        Shape::L => 3,
        Shape::J => 4,
        Shape::O => 5,
        Shape::I => 6,
    }
}

#[test]
fn batch_holds_each_shape_once() {
    for _ in 0..50 {
        let b = next_batch();
        assert_eq!(b.len(), 7);
        let mut seen = [0usize; 7];
        for s in b {
            seen[index(s)] += 1;
        }
        assert_eq!(seen, [1; 7]);
    }
}

#[test]
fn shapes_come_equally_often_over_many_batches() {
    let mut seen = [0usize; 7];
    for _ in 0..1000 {
        for s in next_batch() {
            seen[index(s)] += 1;
        }
    }
    assert_eq!(seen, [1000; 7]);
}

#[test]
fn batches_come_in_varying_orders() {
    let first = next_batch();
    let mut differs = false;
    for _ in 0..100 {
        if next_batch() != first {
            differs = true;
        }
    }
    assert!(differs);
}
