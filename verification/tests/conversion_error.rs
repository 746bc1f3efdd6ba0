use compact_strings::{Buffer, Metadata, TryFromCompactBytesError};
use small_fixed_array::{FixedArray, InvalidLength};

fn refused_bytes(length: usize) -> InvalidLength<u8> {
    match FixedArray::<u8, u8>::try_from(vec![0u8; length]) {
        Ok(_) => panic!("{length} bytes fit in an array counted by a u8"),
        Err(refused) => refused,
    }
}

fn refused_records(length: usize) -> InvalidLength<Metadata> {
    match FixedArray::<Metadata, u8>::try_from(vec![Metadata::new(0, 0); length]) {
        Ok(_) => panic!("{length} records fit in an array counted by a u8"),
        Err(refused) => refused,
    }
}

#[test]
fn error_of_a_refused_data_buffer_names_the_data() {
    let error = TryFromCompactBytesError::from(refused_bytes(256));
    assert_eq!(error.buffer(), Buffer::Data);
    assert_ne!(error.buffer(), Buffer::Meta);
}

#[test]
fn error_of_a_refused_record_buffer_names_the_records() {
    let error = TryFromCompactBytesError::from(refused_records(256));
    assert_eq!(error.buffer(), Buffer::Meta);
    assert_ne!(error.buffer(), Buffer::Data);
}

#[test]
fn error_message_is_the_one_of_the_refusing_array() {
    let refused = refused_bytes(300);
    let expected = refused.to_string();
    assert_eq!(expected, "Cannot fit 300 into u8");
    let error = TryFromCompactBytesError::from(refused);
    assert_eq!(error.message(), expected);

    let error = TryFromCompactBytesError::from(refused_records(256));
    assert_eq!(error.message(), "Cannot fit 256 into u8");
}

#[test]
fn error_converts_with_into() {
    let error: TryFromCompactBytesError = refused_bytes(256).into();
    assert_eq!(error.buffer(), Buffer::Data);
    let error: TryFromCompactBytesError = refused_records(257).into();
    assert_eq!(error.buffer(), Buffer::Meta);
    assert_eq!(error.message(), "Cannot fit 257 into u8");
}

#[test]
fn error_and_buffer_are_debug_printable() {
    assert_eq!(format!("{:?}", Buffer::Data), "Data");
    assert_eq!(format!("{:?}", Buffer::Meta), "Meta");
    let error = TryFromCompactBytesError::from(refused_bytes(256));
    let text = format!("{:?}", error);
    assert!(text.contains("Data"));
    assert!(text.contains("u8"));
}
