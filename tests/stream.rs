use aes_cipher::aes_block_cipher::AESBlockCipher;
use aes_cipher::aes_cipher::AESCipher;

const KEY: u128 = 0x2b7e151628aed2a6abf7158809cf4f3c;

fn sample_stream(len: usize) -> Vec<u8> {
    (0..len).map(|i| (i % 251) as u8 + 1).collect()
}

fn round_trip(len: usize, n_threads: usize) {
    let mut cipher = AESCipher::new(KEY, n_threads).unwrap();
    let plain = sample_stream(len);
    let mut encrypted = Vec::new();
    cipher.cipher(plain.clone(), &mut encrypted);
    assert_eq!(encrypted.len(), (len + 15) / 16 * 16);
    let mut decrypted = Vec::new();
    cipher.decipher(encrypted, &mut decrypted);
    assert_eq!(decrypted, plain);
}

#[test]
fn stream_round_trip_small_lengths() {
    for n_threads in [1usize, 4, 16] {
        for len in [0usize, 1, 15, 16, 17] {
            round_trip(len, n_threads);
        }
    }
}

#[test]
fn stream_round_trip_one_million_bytes_one_thread() {
    round_trip(1_000_000, 1);
}

#[test]
fn stream_round_trip_one_million_bytes_four_threads() {
    round_trip(1_000_000, 4);
}

#[test]
fn stream_round_trip_one_million_bytes_sixteen_threads() {
    round_trip(1_000_000, 16);
}

#[test]
fn stream_encryption_is_blockwise() {
    let mut cipher = AESCipher::new(KEY, 2).unwrap();
    let block_cipher = AESBlockCipher::new_u128(KEY);
    let plain = sample_stream(40);
    let mut encrypted = vec![0xaau8];
    cipher.cipher(plain.clone(), &mut encrypted);
    assert_eq!(encrypted.len(), 1 + 48);
    assert_eq!(encrypted[0], 0xaa);
    for k in 0..3 {
        let mut block = [0u8; 16];
        for j in 0..16 {
            if 16 * k + j < plain.len() {
                block[j] = plain[16 * k + j];
            }
        }
        assert_eq!(&encrypted[1 + 16 * k..1 + 16 * k + 16], &block_cipher.cipher_block(&block)[..]);
    }
}

#[test]
fn padding_of_a_single_byte() {
    let mut cipher = AESCipher::new(KEY, 1).unwrap();
    let block_cipher = AESBlockCipher::new_u128(KEY);
    let mut encrypted = Vec::new();
    cipher.cipher(vec![0x42], &mut encrypted);
    let mut padded = [0u8; 16];
    padded[0] = 0x42;
    assert_eq!(encrypted, block_cipher.cipher_block(&padded).to_vec());
    let mut decrypted = Vec::new();
    cipher.decipher(encrypted, &mut decrypted);
    assert_eq!(decrypted, vec![0x42]);
}

#[test]
fn only_the_final_block_is_cut_at_a_zero() {
    let mut cipher = AESCipher::new(KEY, 3).unwrap();
    let mut plain = sample_stream(35);
    plain[5] = 0;
    plain[20] = 0;
    let mut encrypted = Vec::new();
    cipher.cipher(plain.clone(), &mut encrypted);
    let mut decrypted = Vec::new();
    cipher.decipher(encrypted, &mut decrypted);
    assert_eq!(decrypted, plain);

    let mut lossy = sample_stream(18);
    lossy[17] = 0;
    let mut encrypted = Vec::new();
    cipher.cipher(lossy.clone(), &mut encrypted);
    let mut decrypted = Vec::new();
    cipher.decipher(encrypted, &mut decrypted);
    assert_eq!(decrypted, lossy[..17].to_vec());
}

#[test]
fn parallel_blocks_keep_their_order() {
    let block_cipher = AESBlockCipher::new_u128(KEY);
    let blocks: Vec<[u8; 16]> = (0..300u32)
        .map(|k| {
            let mut b = [0u8; 16];
            for j in 0..16 {
                b[j] = (k.wrapping_mul(7) as u8).wrapping_add(j as u8);
            }
            b
        })
        .collect();
    for n_threads in [1usize, 4, 16] {
        let cipher = AESCipher::new(KEY, n_threads).unwrap();
        let encrypted = cipher.cipher_blocks(&blocks, blocks.len());
        let decrypted = cipher.decipher_blocks(&encrypted, encrypted.len());
        assert_eq!(encrypted.len(), blocks.len());
        for i in 0..blocks.len() {
            assert_eq!(encrypted[i], block_cipher.cipher_block(&blocks[i]));
            assert_eq!(cipher.cipher_block(&blocks[i]), encrypted[i]);
            assert_eq!(decrypted[i], blocks[i]);
            assert_eq!(cipher.inv_cipher_block(&encrypted[i]), blocks[i]);
        }
        let first = cipher.cipher_blocks(&blocks, 5);
        assert_eq!(first.len(), 5);
        assert_eq!(first[4], encrypted[4]);
    }
}

#[test]
fn known_answer_through_the_stream() {
    let mut cipher = AESCipher::new(KEY, 4).unwrap();
    let plain: Vec<u8> = vec![
        0x32, 0x43, 0xf6, 0xa8, 0x88, 0x5a, 0x30, 0x8d, 0x31, 0x31, 0x98, 0xa2, 0xe0, 0x37, 0x07,
        0x34,
    ];
    let mut encrypted = Vec::new();
    cipher.cipher(plain, &mut encrypted);
    assert_eq!(
        encrypted,
        vec![
            0x39, 0x25, 0x84, 0x1d, 0x02, 0xdc, 0x09, 0xfb, 0xdc, 0x11, 0x85, 0x97, 0x19, 0x6a,
            0x0b, 0x32,
        ]
    );
}
