use boa_string::{JsStr, JsString, JsStringBuilder};

#[test]
fn example() {
    let mut s = JsStringBuilder::new();
    s.push(b'x');
    s.extend_from_slice(&[b'1', b'2', b'3']);
    s.extend([b'1', b'2', b'3'].into_iter());
    let js_string = s.build();
    assert!(js_string == "x123123");
    assert!(js_string.as_str().is_latin1());
}

#[test]
fn empty_builders() {
    for builder in [
        JsStringBuilder::<u8>::new(),
        JsStringBuilder::<u8>::default(),
        JsStringBuilder::<u8>::with_capacity(0),
    ] {
        assert!(builder.is_empty());
        assert_eq!(builder.len(), 0);
        assert_eq!(builder.capacity(), 0);
        let string = builder.build();
        assert!(string.is_static());
        assert!(string.is_empty());
    }
    assert!(JsStringBuilder::<u16>::with_capacity(10).build().is_static());
}

#[test]
fn capacities_are_whole_words() {
    if size_of::<usize>() != 8 {
        return;
    }
    assert_eq!(JsStringBuilder::<u8>::with_capacity(1).capacity(), 8);
    assert_eq!(JsStringBuilder::<u8>::with_capacity(8).capacity(), 8);
    assert_eq!(JsStringBuilder::<u8>::with_capacity(9).capacity(), 16);
    assert_eq!(JsStringBuilder::<u16>::with_capacity(3).capacity(), 4);
    assert_eq!(JsStringBuilder::<u16>::with_capacity(4).capacity(), 4);
    assert_eq!(JsStringBuilder::<u16>::with_capacity(5).capacity(), 8);
}

#[test]
fn pushing_doubles_the_capacity() {
    if size_of::<usize>() != 8 {
        return;
    }
    let mut bytes = JsStringBuilder::<u8>::new();
    let mut units = JsStringBuilder::<u16>::new();
    let mut seen = Vec::new();
    for i in 0..17 {
        bytes.push(b'a' + i);
        units.push(0x4E00 + u16::from(i));
        seen.push((bytes.capacity(), units.capacity()));
    }
    assert_eq!(seen[0], (8, 4));
    assert_eq!(seen[3], (8, 4));
    assert_eq!(seen[4], (8, 8));
    assert_eq!(seen[7], (8, 8));
    assert_eq!(seen[8], (16, 16));
    assert_eq!(seen[15], (16, 16));
    assert_eq!(seen[16], (32, 32));
    assert!(bytes.build() == "abcdefghijklmnopq");
    assert_eq!(units.build().to_vec(), (0x4E00..0x4E11).collect::<Vec<u16>>());
}

#[test]
fn reserving() {
    let mut builder = JsStringBuilder::<u8>::new();
    builder.reserve(20);
    let capacity = builder.capacity();
    assert!(capacity >= 20);
    if size_of::<usize>() == 8 {
        assert_eq!(capacity, 24);
    }
    builder.reserve(capacity);
    assert_eq!(builder.capacity(), capacity);
    for _ in 0..capacity {
        builder.push(b'x');
    }
    assert_eq!(builder.capacity(), capacity);
    builder.reserve(1);
    assert!(builder.capacity() >= 2 * capacity);
    builder.reserve(0);
    assert_eq!(builder.len(), capacity);
}

#[test]
fn room_that_cannot_be_made() {
    let mut builder = JsStringBuilder::<u16>::new();
    builder.push(1);
    assert!(builder.can_reserve(0));
    assert!(builder.can_reserve(1000));
    assert!(!builder.can_reserve(isize::MAX as usize / 2));
    assert!(!builder.can_reserve(usize::MAX));
}

#[test]
fn extending_by_slices() {
    let mut builder = JsStringBuilder::<u16>::new();
    builder.extend_from_slice(&[]);
    assert_eq!(builder.capacity(), 0);
    builder.extend_from_slice(&[0x61, 0x4E2D]);
    builder.extend_from_slice(&[0xD800; 30]);
    assert!(builder.capacity() >= 32);
    assert_eq!(builder.len(), 32);
    let string = builder.build();
    assert_eq!(string.len(), 32);
    assert_eq!(string.get(1usize), Some(0x4E2D));
    assert_eq!(string.get(31usize), Some(0xD800));
}

#[test]
fn extending_by_iterators() {
    let items: Vec<u8> = (b'a'..=b't').collect();
    let mut exact = JsStringBuilder::new();
    exact.extend(items.clone().into_iter());
    // An iterator that announces nothing makes the builder grow step by step.
    let mut vague = JsStringBuilder::new();
    vague.extend(items.clone().into_iter().filter(|_| true));
    if size_of::<usize>() == 8 {
        assert_eq!(exact.capacity(), 24);
        assert_eq!(vague.capacity(), 32);
    }
    let collected = JsStringBuilder::from_iter(items.into_iter());
    assert_eq!(collected.capacity(), exact.capacity());
    let string = collected.build();
    assert!(string == "abcdefghijklmnopqrst");
    assert!(exact.build() == string);
    assert!(vague.build() == string);
}

#[test]
fn extending_with_a_given_bound() {
    let mut builder = JsStringBuilder::<u8>::new();
    builder.extend_hinted([b'a'].into_iter(), 100);
    assert!(builder.capacity() >= 100);
    // A bound that no memory block could meet is passed over.
    let mut builder = JsStringBuilder::<u8>::new();
    builder.extend_hinted([b'a'].into_iter(), usize::MAX);
    if size_of::<usize>() == 8 {
        assert_eq!(builder.capacity(), 8);
    }
    assert!(builder.build() == "a");
}

#[test]
fn ways_of_appending_agree() {
    let items: Vec<u16> = (0x4E00..0x4E15).collect();
    for bound in [0, 5, 21] {
        let mut hinted = JsStringBuilder::new();
        hinted.push(0x61);
        hinted.extend_hinted(items.clone().into_iter(), bound);
        let mut pushed = JsStringBuilder::new();
        pushed.push(0x61);
        pushed.reserve(bound);
        for item in &items {
            pushed.push(*item);
        }
        assert_eq!(hinted.capacity(), pushed.capacity());
        let mut copied = JsStringBuilder::new();
        copied.push(0x61);
        copied.extend_from_slice(&items);
        if bound == items.len() {
            assert_eq!(hinted.capacity(), copied.capacity());
        }
        let string = hinted.build();
        assert_eq!(string.len(), 22);
        assert!(string == pushed.build());
        assert!(string == copied.build());
    }
}

#[test]
fn appending_without_checks() {
    let mut builder = JsStringBuilder::<u8>::with_capacity(4);
    let capacity = builder.capacity();
    builder.push_unchecked(b'a');
    builder.extend_from_slice_unchecked(b"bcd");
    assert_eq!(builder.capacity(), capacity);
    assert!(builder.build() == "abcd");
}

#[test]
fn setting_the_length() {
    let mut builder = JsStringBuilder::<u8>::new();
    builder.extend_from_slice(b"abcd");
    builder.set_len(2);
    assert_eq!(builder.len(), 2);
    let shorter = builder.clone();
    builder.push(b'x');
    builder.set_len(4);
    assert!(builder.build() == "abxd");
    assert!(shorter.build() == "ab");
}

#[test]
fn clones_are_independent() {
    let mut builder = JsStringBuilder::<u16>::with_capacity(10);
    builder.extend_from_slice(&[1, 2, 3]);
    let copy = builder.clone();
    assert_eq!(copy.capacity(), builder.capacity());
    assert_eq!(copy.len(), 3);
    builder.push(4);
    assert_eq!(copy.build().to_vec(), [1, 2, 3]);
    assert_eq!(builder.build().to_vec(), [1, 2, 3, 4]);
}

#[test]
fn built_strings() {
    // ASCII content is stored as Latin1, any other is not.
    let mut builder = JsStringBuilder::<u16>::new();
    builder.extend_from_slice(&[0x61, 0x7F]);
    let string = builder.build();
    assert!(string.as_str().is_latin1());
    assert_eq!(string.to_vec(), [0x61, 0x7F]);
    let mut builder = JsStringBuilder::<u8>::new();
    builder.extend_from_slice(&[0x61, 0x80, 0xFF]);
    let string = builder.build();
    assert!(!string.as_str().is_latin1());
    assert_eq!(string.to_vec(), [0x61, 0x80, 0xFF]);
    assert!(string == JsStr::latin1(&[0x61, 0x80, 0xFF]));
}

#[test]
fn building_drops_unused_room() {
    let mut builder = JsStringBuilder::<u16>::with_capacity(100);
    builder.extend_from_slice(&[0x4E00; 90]);
    builder.set_len(3);
    let string = builder.build();
    assert_eq!(string.to_vec(), [0x4E00; 3]);
    let mut builder = JsStringBuilder::<u8>::with_capacity(100);
    builder.extend_from_slice(b"abcdef");
    builder.set_len(1);
    assert!(builder.build() == "a");
}

#[test]
fn built_strings_are_not_static() {
    let mut builder = JsStringBuilder::<u8>::new();
    builder.extend_from_slice(b"length");
    let string = builder.build();
    assert!(!string.is_static());
    assert_eq!(string.refcount(), Some(1));
    assert!(string == JsString::from("length"));
}

#[test]
fn rebuilding_a_string() {
    for string in [
        JsString::from("caf\u{E9} \u{1F600}"),
        JsString::from(&[0xD800, 0x61]),
        JsString::from("hello"),
    ] {
        let mut builder = JsStringBuilder::new();
        builder.extend_from_slice(&string.to_vec());
        assert!(builder.build() == string);
    }
}
