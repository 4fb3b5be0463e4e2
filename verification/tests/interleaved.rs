use rstdms::byte_reader::ByteSource;
use rstdms::interleaved::InterleavedReader;
use rstdms::TdmsReadError;

#[test]
fn read_empty_data() {
    let mut buffer = vec![0u8; 4];
    let bytes = vec![0u8; 0];
    let mut reader = InterleavedReader::new(&bytes, 8, 4, 0);

    let result = reader.read(&mut buffer);

    assert!(result.is_ok());
    assert_eq!(result.unwrap(), 0);
}

#[test]
fn read_to_empty_buffer() {
    let mut buffer = vec![0u8; 0];
    let bytes = vec![0u8; 8];
    let mut reader = InterleavedReader::new(&bytes, 8, 4, 0);

    let result = reader.read(&mut buffer);

    assert!(result.is_ok());
    assert_eq!(result.unwrap(), 0);
}

#[test]
fn read_to_required_size_buffer() {
    let mut buffer = vec![0u8; 8];
    let bytes = vec![0, 1, 2, 3, 4, 5, 6, 7, 8, 9, 10, 11, 12, 13, 14, 15];
    let mut reader = InterleavedReader::new(&bytes, 4, 2, 0);

    let result = reader.read(&mut buffer);

    assert!(result.is_ok());
    assert_eq!(result.unwrap(), 8);
    assert_eq!(buffer, vec![0, 1, 4, 5, 8, 9, 12, 13]);
}

#[test]
fn read_to_larger_buffer() {
    let mut buffer = vec![0u8; 10];
    let bytes = vec![0, 1, 2, 3, 4, 5, 6, 7, 8, 9, 10, 11, 12, 13, 14, 15];
    let mut reader = InterleavedReader::new(&bytes, 4, 2, 0);

    let result = reader.read(&mut buffer);

    assert!(result.is_ok());
    assert_eq!(result.unwrap(), 8);
    assert_eq!(buffer, vec![0, 1, 4, 5, 8, 9, 12, 13, 0, 0]);
}

#[test]
fn read_to_smaller_buffer() {
    let mut buffer = vec![0u8; 6];
    let bytes = vec![0, 1, 2, 3, 4, 5, 6, 7, 8, 9, 10, 11, 12, 13, 14, 15];
    let mut reader = InterleavedReader::new(&bytes, 4, 2, 0);

    let result = reader.read(&mut buffer);

    assert!(result.is_ok());
    assert_eq!(result.unwrap(), 6);
    assert_eq!(buffer, vec![0, 1, 4, 5, 8, 9]);
}

#[test]
fn read_split() {
    let mut buffer = vec![0u8; 8];
    let bytes = vec![0, 1, 2, 3, 4, 5, 6, 7, 8, 9, 10, 11, 12, 13, 14, 15];
    let mut reader = InterleavedReader::new(&bytes, 4, 2, 0);

    let result = reader.read(&mut buffer[0..6]);

    assert!(result.is_ok());
    assert_eq!(result.unwrap(), 6);
    assert_eq!(buffer, vec![0, 1, 4, 5, 8, 9, 0, 0]);

    let result = reader.read(&mut buffer[6..8]);

    assert!(result.is_ok());
    assert_eq!(result.unwrap(), 2);
    assert_eq!(buffer, vec![0, 1, 4, 5, 8, 9, 12, 13]);
}

#[test]
fn read_split_off_type_boundary() {
    let mut buffer = vec![0u8; 8];
    let bytes = vec![0, 1, 2, 3, 4, 5, 6, 7, 8, 9, 10, 11, 12, 13, 14, 15];
    let mut reader = InterleavedReader::new(&bytes, 4, 2, 0);

    let result = reader.read(&mut buffer[0..5]);

    assert!(result.is_ok());
    assert_eq!(result.unwrap(), 5);
    assert_eq!(buffer, vec![0, 1, 4, 5, 8, 0, 0, 0]);

    let result = reader.read(&mut buffer[5..8]);

    assert!(result.is_ok());
    assert_eq!(result.unwrap(), 3);
    assert_eq!(buffer, vec![0, 1, 4, 5, 8, 9, 12, 13]);
}

#[test]
fn read_split_off_type_boundary_with_offset() {
    let mut buffer = vec![0u8; 8];
    let bytes = vec![0, 1, 2, 3, 4, 5, 6, 7, 8, 9, 10, 11, 12, 13, 14, 15];
    let mut reader = InterleavedReader::new(&bytes, 4, 2, 2);

    let result = reader.read(&mut buffer[0..5]);

    assert!(result.is_ok());
    assert_eq!(result.unwrap(), 5);
    assert_eq!(buffer, vec![2, 3, 6, 7, 10, 0, 0, 0]);

    let result = reader.read(&mut buffer[5..8]);

    assert!(result.is_ok());
    assert_eq!(result.unwrap(), 3);
    assert_eq!(buffer, vec![2, 3, 6, 7, 10, 11, 14, 15]);
}

#[test]
fn read_after_the_end_gives_nothing() {
    let mut buffer = vec![9u8; 4];
    let bytes = vec![0, 1, 2, 3, 4, 5, 6, 7];
    let mut reader = InterleavedReader::new(&bytes, 4, 1, 3);

    assert_eq!(reader.read(&mut buffer).unwrap(), 2);
    assert_eq!(buffer, vec![3, 7, 9, 9]);
    assert_eq!(reader.read(&mut buffer).unwrap(), 0);
    assert_eq!(buffer, vec![3, 7, 9, 9]);
}

#[test]
fn a_chunk_that_ends_inside_a_sample_has_only_whole_samples() {
    let mut buffer = vec![0u8; 8];
    let bytes = vec![0, 1, 2, 3, 4, 5, 6, 7, 8, 9];
    let mut reader = InterleavedReader::new(&bytes, 4, 2, 1);

    assert_eq!(reader.available(), 4);
    assert_eq!(reader.read(&mut buffer).unwrap(), 4);
    assert_eq!(buffer, vec![1, 2, 5, 6, 0, 0, 0, 0]);
}

#[test]
fn read_exact_from_a_lane_fails_when_the_lane_is_too_short() {
    let bytes = vec![0, 1, 2, 3, 4, 5, 6, 7];
    let mut reader = InterleavedReader::new(&bytes, 4, 2, 0);
    let mut exact = vec![0u8; 4];
    assert!(reader.read_exact(&mut exact).is_ok());
    assert_eq!(exact, vec![0, 1, 4, 5]);

    let mut too_long = vec![0u8; 1];
    match reader.read_exact(&mut too_long) {
        Err(TdmsReadError::IoError(_)) => {}
        _ => panic!("Expected an IO error"),
    }
}
