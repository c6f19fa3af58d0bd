use n3::heap::MinHeap;

#[test]
fn keys_come_out_in_order() {
    let mut heap = MinHeap::new();
    assert_eq!(heap.pop(), None);
    for key in [5, 1, 4, 1, 9, 2, 6] {
        heap.push(key);
    }
    assert_eq!(heap.len(), 7);
    assert_eq!(heap.peek(), Some(1));
    let mut keys = vec![];
    while let Some(key) = heap.pop() {
        keys.push(key);
    }
    assert_eq!(keys, vec![1, 1, 2, 4, 5, 6, 9]);
}
