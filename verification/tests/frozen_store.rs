use compact_strings::{CompactBytestrings, FixedBytestrings, MAX_COUNT};

fn grown(items: &[&[u8]]) -> CompactBytestrings {
    let mut store = CompactBytestrings::new();
    for item in items {
        store.push(item);
    }
    store
}

fn frozen(items: &[&[u8]]) -> FixedBytestrings {
    FixedBytestrings::try_from(grown(items)).expect("small stores always fit")
}

#[test]
fn three_strings_are_found_by_position() {
    let store = frozen(&[b"One", b"Two", b"Three"]);
    assert_eq!(store.get(0), Some(b"One".as_slice()));
    assert_eq!(store.get(1), Some(b"Two".as_slice()));
    assert_eq!(store.get(2), Some(b"Three".as_slice()));
    assert_eq!(store.get(3), None);
}

#[test]
fn three_strings_are_iterated_in_order() {
    let store = frozen(&[b"One", b"Two", b"Three"]);
    let mut iter = store.iter();
    assert_eq!(iter.next(), Some(b"One".as_slice()));
    assert_eq!(iter.next(), Some(b"Two".as_slice()));
    assert_eq!(iter.next(), Some(b"Three".as_slice()));
    assert_eq!(iter.next(), None);
    assert_eq!(iter.next(), None);
}

#[test]
fn empty_store_freezes_to_empty_store() {
    let store = frozen(&[]);
    assert_eq!(store.get(0), None);
    let mut iter = store.iter();
    assert_eq!(iter.len(), 0);
    assert_eq!(iter.size_hint(), (0, Some(0)));
    assert_eq!(iter.next(), None);
    assert_eq!(iter.next_back(), None);
}

#[test]
fn round_trip_keeps_every_entry() {
    let items: Vec<Vec<u8>> = vec![
        b"".to_vec(),
        b"a".to_vec(),
        vec![0, 255, 0, 255],
        b"".to_vec(),
        (0..=255).collect(),
        b"a".to_vec(),
        vec![7; 1000],
    ];
    let mut store = CompactBytestrings::new();
    for item in &items {
        store.push(item);
    }
    assert_eq!(store.len(), items.len());
    let store = FixedBytestrings::try_from(store).expect("fits");
    for (position, item) in items.iter().enumerate() {
        assert_eq!(store.get(position), Some(item.as_slice()));
    }
    assert_eq!(store.get(items.len()), None);
    assert_eq!(store.get(items.len() + 1), None);
    assert_eq!(store.get(usize::MAX), None);
}

#[test]
fn try_into_freezes_as_try_from_does() {
    let result: Result<FixedBytestrings, _> = grown(&[b"left", b"right"]).try_into();
    let store = result.expect("fits");
    assert_eq!(store.get(0), Some(b"left".as_slice()));
    assert_eq!(store.get(1), Some(b"right".as_slice()));
    assert_eq!(store.get(2), None);
}

#[test]
fn get_unchecked_agrees_with_get() {
    let store = frozen(&[b"alpha", b"", b"gamma"]);
    for position in 0..3 {
        assert_eq!(Some(store.get_unchecked(position)), store.get(position));
    }
    assert_eq!(store.get_unchecked(1), b"".as_slice());
    assert_eq!(store.get_unchecked(2), b"gamma".as_slice());
}

#[test]
fn frozen_store_is_walked_backwards() {
    let store = frozen(&[b"One", b"Two", b"Three"]);
    let mut iter = store.iter();
    let mut seen: Vec<&[u8]> = Vec::new();
    while let Some(bytes) = iter.next_back() {
        seen.push(bytes);
    }
    assert_eq!(seen, vec![b"Three".as_slice(), b"Two".as_slice(), b"One".as_slice()]);
    seen.reverse();
    assert_eq!(seen, vec![b"One".as_slice(), b"Two".as_slice(), b"Three".as_slice()]);
}

#[test]
fn growable_store_reads_like_its_frozen_form() {
    let store = grown(&[b"One", b"Two", b"Three"]);
    assert_eq!(store.len(), 3);
    assert_eq!(store.get(0), Some(b"One".as_slice()));
    assert_eq!(store.get(2), Some(b"Three".as_slice()));
    assert_eq!(store.get(3), None);
    let mut iter = store.iter();
    assert_eq!(iter.next(), Some(b"One".as_slice()));
    assert_eq!(iter.next_back(), Some(b"Three".as_slice()));
    assert_eq!(iter.next(), Some(b"Two".as_slice()));
    assert_eq!(iter.next(), None);
}

#[test]
fn new_growable_store_is_empty() {
    let store = CompactBytestrings::new();
    assert_eq!(store.len(), 0);
    assert_eq!(store.get(0), None);
    assert_eq!(store.iter().len(), 0);
}

#[test]
fn max_count_is_the_largest_32_bit_value() {
    assert_eq!(MAX_COUNT as u64, u32::MAX as u64);
    assert_eq!(MAX_COUNT as u64, 4_294_967_295);
}
