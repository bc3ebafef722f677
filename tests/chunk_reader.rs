use aes_cipher::chunk_reader::ChunkReader;

#[test]
fn test_read_one_chunk_exact_size() {
    let input = vec![54u8; 16];
    let mut reader = ChunkReader::new(input, 16, true);
    let mut buffer = [[0u8; 16]; 1];
    let chunks_filled = reader.read_chunks(1, &mut buffer);
    assert_eq!(chunks_filled, 1);
    assert_eq!(buffer[0], [54u8; 16]);
}

#[test]
fn test_read_one_chunk_partial_size() {
    let input = vec![54u8; 8];
    let mut reader = ChunkReader::new(input, 16, true);
    let mut buffer = [[0u8; 16]; 1];
    let chunks_filled = reader.read_chunks(1, &mut buffer);
    assert_eq!(chunks_filled, 1);
    assert_eq!(buffer[0], [54u8, 54u8, 54u8, 54u8, 54u8, 54u8, 54u8, 54u8, 0u8, 0u8, 0u8, 0u8, 0u8, 0u8, 0u8, 0u8]);
}

#[test]
fn test_read_multiple_chunks_exact_size() {
    let mut vec = vec![0u8; 32];
    (0..16).for_each(|i| vec[i] = 54u8);
    (16..32).for_each(|i| vec[i] = 76u8);

    let input = vec;
    let mut reader = ChunkReader::new(input, 16, true);
    let mut buffer = [[0u8; 16]; 2];
    let chunks_filled = reader.read_chunks(2, &mut buffer);
    assert_eq!(chunks_filled, 2);
    assert_eq!(buffer[0], [54u8; 16]);
    assert_eq!(buffer[1], [76u8; 16]);
}

#[test]
fn test_read_multiple_chunks_partial_size() {
    let mut vec = vec![0u8; 24];
    (0..8).for_each(|i| vec[i] = 54u8);
    (8..16).for_each(|i| vec[i] = 76u8);
    (16..24).for_each(|i| vec[i] = 98u8);

    let input = vec;
    let mut reader = ChunkReader::new(input, 16, true);
    let mut buffer = [[0u8; 16]; 2];
    let chunks_filled = reader.read_chunks(2, &mut buffer);
    assert_eq!(chunks_filled, 2);
    assert_eq!(buffer[0], [54u8, 54u8, 54u8, 54u8, 54u8, 54u8, 54u8, 54u8, 76u8, 76u8, 76u8, 76u8, 76u8, 76u8, 76u8, 76u8]);
    assert_eq!(buffer[1], [98u8, 98u8, 98u8, 98u8, 98u8, 98u8, 98u8, 98u8, 0u8, 0u8, 0u8, 0u8, 0u8, 0u8, 0u8, 0u8]);
}

#[test]
fn test_read_more_than_available() {
    let input = vec![54u8; 16];
    let mut reader = ChunkReader::new(input, 16, true);
    let mut buffer = [[0u8; 16]; 2];
    let chunks_filled = reader.read_chunks(2, &mut buffer);
    assert_eq!(chunks_filled, 1);
    assert_eq!(buffer[0], [54u8; 16]);
    assert_eq!(buffer[1], [0u8; 16]);
}

#[test]
fn test_read_without_padding_keeps_slot_tail() {
    let input = vec![7u8; 20];
    let mut reader = ChunkReader::new(input, 16, false);
    let mut buffer = [[9u8; 16]; 3];
    let chunks_filled = reader.read_chunks(3, &mut buffer);
    assert_eq!(chunks_filled, 2);
    assert_eq!(buffer[0], [7u8; 16]);
    assert_eq!(buffer[1], [7u8, 7u8, 7u8, 7u8, 9u8, 9u8, 9u8, 9u8, 9u8, 9u8, 9u8, 9u8, 9u8, 9u8, 9u8, 9u8]);
    assert_eq!(buffer[2], [9u8; 16]);
    assert!(reader.is_exhausted());
    assert_eq!(reader.read_chunks(3, &mut buffer), 0);
}

#[test]
fn test_read_in_batches() {
    let input: Vec<u8> = (0..40u8).collect();
    let mut reader = ChunkReader::new(input, 16, true);
    let mut buffer = [[0u8; 16]; 1];
    assert_eq!(reader.read_chunks(1, &mut buffer), 1);
    assert_eq!(buffer[0][0], 0);
    assert!(!reader.is_exhausted());
    assert_eq!(reader.read_chunks(1, &mut buffer), 1);
    assert_eq!(buffer[0][15], 31);
    assert_eq!(reader.read_chunks(1, &mut buffer), 1);
    assert_eq!(buffer[0][7], 39);
    assert_eq!(buffer[0][8], 0);
    assert_eq!(reader.read_chunks(1, &mut buffer), 0);
}

#[test]
fn test_read_empty_source() {
    let mut reader = ChunkReader::new(Vec::new(), 16, true);
    let mut buffer = [[5u8; 16]; 2];
    assert_eq!(reader.read_chunks(2, &mut buffer), 0);
    assert_eq!(buffer[0], [0u8; 16]);
    assert_eq!(buffer[1], [5u8; 16]);
}
