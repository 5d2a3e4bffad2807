use boa_string::layout::{capacity_from_layout, string_layout};

#[test]
fn block_sizes() {
    let word = size_of::<usize>();
    assert_eq!(string_layout(0, 1), Some(2 * word));
    assert_eq!(string_layout(1, 1), Some(3 * word));
    assert_eq!(string_layout(word, 1), Some(3 * word));
    assert_eq!(string_layout(word + 1, 1), Some(4 * word));
    assert_eq!(string_layout(word / 2, 2), Some(3 * word));
    assert_eq!(string_layout(word / 2 + 1, 2), Some(4 * word));
}

#[test]
fn largest_blocks() {
    let word = size_of::<usize>();
    let largest = isize::MAX as usize - (3 * word - 1);
    assert_eq!(
        string_layout(largest, 1),
        Some(isize::MAX as usize - (word - 1))
    );
    assert_eq!(string_layout(largest + 1, 1), None);
    assert!(string_layout(largest / 2, 2).is_some());
    assert_eq!(string_layout(largest / 2 + 1, 2), None);
    assert_eq!(string_layout(usize::MAX, 1), None);
    assert_eq!(string_layout(usize::MAX, 2), None);
}

#[test]
fn room_in_blocks() {
    let word = size_of::<usize>();
    assert_eq!(capacity_from_layout(2 * word, 1), 0);
    assert_eq!(capacity_from_layout(3 * word, 1), word);
    assert_eq!(capacity_from_layout(3 * word, 2), word / 2);
    for len in 0..40 {
        for unit_size in [1, 2] {
            let capacity = capacity_from_layout(string_layout(len, unit_size).unwrap(), unit_size);
            assert!(capacity >= len);
            // Asking for the whole room gives the same room again.
            let again =
                capacity_from_layout(string_layout(capacity, unit_size).unwrap(), unit_size);
            assert_eq!(again, capacity);
        }
    }
}
