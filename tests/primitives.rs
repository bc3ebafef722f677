use aes_cipher::chunk_writer::ChunkWriter;
use aes_cipher::config::Config;
use aes_cipher::gf::{galois_double, galois_mul};
use aes_cipher::matrix::Matrix;
use aes_cipher::noop_metrics_logger::NoOpMetricsLogger;
use aes_cipher::word::{word_from_bytes, word_to_bytes};

#[test]
fn galois_products() {
    assert_eq!(galois_mul(0x57, 0x83), 0xc1);
    assert_eq!(galois_mul(0x57, 0x13), 0xfe);
    assert_eq!(galois_mul(0x57, 0x02), 0xae);
    assert_eq!(galois_mul(0xae, 0x02), 0x47);
    assert_eq!(galois_mul(0x00, 0x77), 0x00);
    assert_eq!(galois_mul(0x77, 0x01), 0x77);
}

#[test]
fn matrix_cells_rows_and_columns() {
    let mut m = Matrix::new_from_data([[0, 1, 2, 3], [4, 5, 6, 7], [8, 9, 10, 11], [12, 13, 14, 15]]);
    assert_eq!(m.get(1, 2), 6);
    assert_eq!(m.get_rows_amount(), 4);
    assert_eq!(m.get_cols_amount(), 4);
    assert_eq!(m.get_row(2), [8, 9, 10, 11]);
    assert_eq!(m.get_col(1), [1, 5, 9, 13]);
    assert_eq!(m.get_cols(), vec![[0, 4, 8, 12], [1, 5, 9, 13], [2, 6, 10, 14], [3, 7, 11, 15]]);
    m.set(3, 0, 99);
    assert_eq!(m.get(3, 0), 99);
    m.set_col(2, [20, 21, 22, 23]);
    assert_eq!(m.get_col(2), [20, 21, 22, 23]);
    assert_eq!(Matrix::new().get_row(0), [0, 0, 0, 0]);
}

#[test]
fn matrix_row_rotation() {
    let mut m = Matrix::new_from_data([[0, 1, 2, 3], [4, 5, 6, 7], [8, 9, 10, 11], [12, 13, 14, 15]]);
    m.shift_row_left(1, 1);
    assert_eq!(m.get_row(1), [5, 6, 7, 4]);
    m.shift_row_left(2, 3);
    assert_eq!(m.get_row(2), [11, 8, 9, 10]);
    m.shift_row_right(3, 1);
    assert_eq!(m.get_row(3), [15, 12, 13, 14]);
    m.shift_row_right(0, 6);
    assert_eq!(m.get_row(0), [2, 3, 0, 1]);
}

#[test]
fn word_bytes_are_big_endian() {
    assert_eq!(word_to_bytes(0x0a0b0c0d), [0x0a, 0x0b, 0x0c, 0x0d]);
    assert_eq!(word_from_bytes([0xde, 0xad, 0xbe, 0xef]), 0xdeadbeef);
}

#[test]
fn writer_cuts_only_the_final_chunk() {
    let mut chunk = [1u8; 16];
    chunk[3] = 0;
    let mut writer = ChunkWriter::new(vec![9], true);
    writer.write_chunks(&[chunk], false);
    writer.write_chunks(&[[2u8; 16], chunk], true);
    let out = writer.into_output();
    assert_eq!(out.len(), 1 + 16 + 16 + 3);
    assert_eq!(out[0], 9);
    assert_eq!(&out[1..17], &chunk[..]);
    assert_eq!(&out[33..], &[1u8, 1, 1][..]);
}

#[test]
fn writer_keeps_a_final_chunk_without_zero() {
    let mut writer = ChunkWriter::new(Vec::new(), true);
    writer.write_chunks(&[[3u8; 16]], true);
    assert_eq!(writer.into_output(), vec![3u8; 16]);

    let mut chunk = [4u8; 16];
    chunk[0] = 0;
    let mut writer = ChunkWriter::new(Vec::new(), false);
    writer.write_chunks(&[chunk], true);
    assert_eq!(writer.into_output(), chunk.to_vec());

    let mut writer = ChunkWriter::new(Vec::new(), true);
    writer.write_chunks(&[chunk], true);
    assert_eq!(writer.into_output(), Vec::<u8>::new());
}

#[test]
fn plain_values() {
    let _logger = NoOpMetricsLogger::new();
    let config = Config {
        n_threads: 4,
        input_file: Some("in".to_string()),
        encrypted_file: None,
        decrypted_file: None,
        repeat: 2,
        publish_metrics: false,
    };
    assert_eq!(config.n_threads, 4);
    assert_eq!(config.repeat, 2);
}

#[test]
fn galois_doubling() {
    assert_eq!(galois_double(0x57), 0xae);
    assert_eq!(galois_double(0xae), 0x47);
    assert_eq!(galois_double(0x80), 0x1b);
}
