use aes_cipher::aes_block_cipher::AESBlockCipher;
use aes_cipher::aes_key::{N_B, N_K};
use aes_cipher::state::State;

#[test]
fn test_shift_rows() {
    let mut state = State::new_from_data([
        [0xd4, 0xe0, 0xb8, 0x1e],
        [0xbf, 0xb4, 0x41, 0x27],
        [0x5d, 0x52, 0x11, 0x98],
        [0x30, 0xae, 0xf1, 0xe5],
    ]);

    let expected_state = State::new_from_data([
        [0xd4, 0xe0, 0xb8, 0x1e],
        [0xb4, 0x41, 0x27, 0xbf],
        [0x11, 0x98, 0x5d, 0x52],
        [0xe5, 0x30, 0xae, 0xf1],
    ]);

    state.shift_rows();

    for i in 0..4 {
        assert_eq!(state.data.get_row(i), expected_state.data.get_row(i));
    }
}

#[test]
fn test_inv_shift_rows() {
    let mut state = State::new_from_data([
        [0xd4, 0xe0, 0xb8, 0x1e],
        [0xb4, 0x41, 0x27, 0xbf],
        [0x11, 0x98, 0x5d, 0x52],
        [0xe5, 0x30, 0xae, 0xf1],
    ]);

    let expected_state = State::new_from_data([
        [0xd4, 0xe0, 0xb8, 0x1e],
        [0xbf, 0xb4, 0x41, 0x27],
        [0x5d, 0x52, 0x11, 0x98],
        [0x30, 0xae, 0xf1, 0xe5],
    ]);

    state.inv_shift_rows();

    for i in 0..4 {
        assert_eq!(state.data.get_row(i), expected_state.data.get_row(i));
    }
}

#[test]
fn test_sub_bytes() {
    let mut state = State::new_from_data([
        [0x19, 0xa0, 0x9a, 0xe9],
        [0x3d, 0xf4, 0xc6, 0xf8],
        [0xe3, 0xe2, 0x8d, 0x48],
        [0xbe, 0x2b, 0x2a, 0x08],
    ]);

    let expected_state = State::new_from_data([
        [0xd4, 0xe0, 0xb8, 0x1e],
        [0x27, 0xbf, 0xb4, 0x41],
        [0x11, 0x98, 0x5d, 0x52],
        [0xae, 0xf1, 0xe5, 0x30],
    ]);

    state.sub_bytes();

    for i in 0..4 {
        assert_eq!(state.data.get_row(i), expected_state.data.get_row(i));
    }
}

#[test]
fn test_inv_sub_bytes() {
    let mut state = State::new_from_data([
        [0xd4, 0xe0, 0xb8, 0x1e],
        [0x27, 0xbf, 0xb4, 0x41],
        [0x11, 0x98, 0x5d, 0x52],
        [0xae, 0xf1, 0xe5, 0x30],
    ]);

    let expected_state = State::new_from_data([
        [0x19, 0xa0, 0x9a, 0xe9],
        [0x3d, 0xf4, 0xc6, 0xf8],
        [0xe3, 0xe2, 0x8d, 0x48],
        [0xbe, 0x2b, 0x2a, 0x08],
    ]);

    state.inv_sub_bytes();

    for i in 0..4 {
        assert_eq!(state.data.get_row(i), expected_state.data.get_row(i));
    }
}

#[test]
fn test_get_state_from_data_in() {
    let data_in: [u8; 4 * N_B] = [
        0x32, 0x88, 0x31, 0xe0, 0x43, 0x5a, 0x31, 0x37, 0xf6, 0x30, 0x98, 0x07, 0xa8, 0x8d, 0xa2,
        0x34,
    ];

    let expected_state = State::new_from_data([
        [0x32, 0x43, 0xf6, 0xa8],
        [0x88, 0x5a, 0x30, 0x8d],
        [0x31, 0x31, 0x98, 0xa2],
        [0xe0, 0x37, 0x07, 0x34],
    ]);

    let state = State::new_from_data_in(&data_in);

    for i in 0..4 {
        assert_eq!(state.data.get_row(i), expected_state.data.get_row(i));
    }
}

#[test]
fn test_set_data_out_from_state() {
    let mut data_out: [u8; 4 * N_B] = [0; 4 * N_B];

    let state = State::new_from_data([
        [0x39, 0x02, 0xdc, 0x19],
        [0x25, 0xdc, 0x11, 0x6a],
        [0x84, 0x09, 0x85, 0x0b],
        [0x1d, 0xfb, 0x97, 0x32],
    ]);

    let expected_data_out: [u8; 4 * N_B] = [
        0x39, 0x25, 0x84, 0x1d, 0x02, 0xdc, 0x09, 0xfb, 0xdc, 0x11, 0x85, 0x97, 0x19, 0x6a, 0x0b,
        0x32,
    ];

    state.set_data_out(&mut data_out);

    for i in 0..(N_B * 4) {
        assert_eq!(data_out[i], expected_data_out[i]);
    }
}

#[test]
fn test_mix_columns() {
    let mut state = State::new_from_data([
        [0xdb, 0xf2, 0x01, 0xc6],
        [0x13, 0x0a, 0x01, 0xc6],
        [0x53, 0x22, 0x01, 0xc6],
        [0x45, 0x5c, 0x01, 0xc6],
    ]);

    let expected_state = State::new_from_data([
        [0x8e, 0x9f, 0x01, 0xc6],
        [0x4d, 0xdc, 0x01, 0xc6],
        [0xa1, 0x58, 0x01, 0xc6],
        [0xbc, 0x9d, 0x01, 0xc6],
    ]);

    state.mix_columns();

    for i in 0..4 {
        assert_eq!(state.data.get_row(i), expected_state.data.get_row(i));
    }
}

#[test]
fn test_cipher() {
    let plain_bytes: [u8; 4 * N_B] = [
        0x32, 0x43, 0xf6, 0xa8, 0x88, 0x5a, 0x30, 0x8d, 0x31, 0x31, 0x98, 0xa2, 0xe0, 0x37, 0x07,
        0x34,
    ];

    let cipher_key: [u8; 4 * N_K as usize] = [
        0x2b, 0x7e, 0x15, 0x16, 0x28, 0xae, 0xd2, 0xa6, 0xab, 0xf7, 0x15, 0x88, 0x09, 0xcf, 0x4f,
        0x3c,
    ];

    let expected_cipher_bytes: [u8; 4 * N_B] = [
        0x39, 0x25, 0x84, 0x1d, 0x02, 0xdc, 0x09, 0xfb, 0xdc, 0x11, 0x85, 0x97, 0x19, 0x6a, 0x0b,
        0x32,
    ];

    let cipher = AESBlockCipher::new(cipher_key);

    let cipher_bytes = cipher.cipher_block(&plain_bytes);

    for i in 0..(N_B * 4) {
        assert_eq!(cipher_bytes[i], expected_cipher_bytes[i]);
    }
}

#[test]
fn test_cipher_using_new_u128() {
    let plain_bytes: [u8; 4 * N_B] = [
        0x32, 0x43, 0xf6, 0xa8, 0x88, 0x5a, 0x30, 0x8d, 0x31, 0x31, 0x98, 0xa2, 0xe0, 0x37, 0x07,
        0x34,
    ];

    let cipher_key: u128 = 0x2b7e151628aed2a6abf7158809cf4f3c;

    let expected_cipher_bytes: [u8; 4 * N_B] = [
        0x39, 0x25, 0x84, 0x1d, 0x02, 0xdc, 0x09, 0xfb, 0xdc, 0x11, 0x85, 0x97, 0x19, 0x6a, 0x0b,
        0x32,
    ];

    let cipher = AESBlockCipher::new_u128(cipher_key);

    let block = cipher.cipher_block(&plain_bytes);

    for i in 0..(N_B * 4) {
        assert_eq!(block[i], expected_cipher_bytes[i]);
    }
}

#[test]
fn test_inv_mix_columns() {
    let mut state = State::new_from_data([
        [0x8e, 0x9f, 0x01, 0xc6],
        [0x4d, 0xdc, 0x01, 0xc6],
        [0xa1, 0x58, 0x01, 0xc6],
        [0xbc, 0x9d, 0x01, 0xc6],
    ]);

    let expected_state = State::new_from_data([
        [0xdb, 0xf2, 0x01, 0xc6],
        [0x13, 0x0a, 0x01, 0xc6],
        [0x53, 0x22, 0x01, 0xc6],
        [0x45, 0x5c, 0x01, 0xc6],
    ]);

    state.inv_mix_columns();

    for i in 0..4 {
        assert_eq!(state.data.get_row(i), expected_state.data.get_row(i));
    }
}

#[test]
fn test_inv_cipher() {
    let expected_plain_text: [u8; 4 * N_B] = [
        0x32, 0x43, 0xf6, 0xa8, 0x88, 0x5a, 0x30, 0x8d, 0x31, 0x31, 0x98, 0xa2, 0xe0, 0x37, 0x07,
        0x34,
    ];

    let cipher_key: [u8; 4 * N_K as usize] = [
        0x2b, 0x7e, 0x15, 0x16, 0x28, 0xae, 0xd2, 0xa6, 0xab, 0xf7, 0x15, 0x88, 0x09, 0xcf, 0x4f,
        0x3c,
    ];

    let cipher_bytes: [u8; 4 * N_B] = [
        0x39, 0x25, 0x84, 0x1d, 0x02, 0xdc, 0x09, 0xfb, 0xdc, 0x11, 0x85, 0x97, 0x19, 0x6a, 0x0b,
        0x32,
    ];

    let cipher = AESBlockCipher::new(cipher_key);

    let plain_text = cipher.inv_cipher_block(&cipher_bytes);

    for i in 0..(N_B * 4) {
        assert_eq!(plain_text[i], expected_plain_text[i]);
    }
}

#[test]
fn test_add_round_key() {
    let mut state = State::new_from_data([
        [0x04, 0xe0, 0x48, 0x28],
        [0x66, 0xcb, 0xf8, 0x06],
        [0x81, 0x19, 0xd3, 0x26],
        [0xe5, 0x9a, 0x7a, 0x4c],
    ]);

    let expected_state = State::new_from_data([
        [0xa4, 0x68, 0x6b, 0x02],
        [0x9c, 0x9f, 0x5b, 0x6a],
        [0x7f, 0x35, 0xea, 0x50],
        [0xf2, 0x2b, 0x43, 0x49],
    ]);

    state.add_round_key(&[0xa0fafe17, 0x88542cb1, 0x23a33939, 0x2a6c7605]);

    for i in 0..4 {
        assert_eq!(state.data.get_row(i), expected_state.data.get_row(i));
    }
}

#[test]
fn test_state_from_words() {
    let state = State::new_from_words(&[0x00010203, 0x04050607, 0x08090a0b, 0x0c0d0e0f]);
    let mut data_out = [0u8; 16];
    state.set_data_out(&mut data_out);
    for i in 0..16 {
        assert_eq!(data_out[i], i as u8);
    }
}

#[test]
fn test_decrypt_of_encrypt_gives_block_back() {
    let cipher = AESBlockCipher::new_u128(0x000102030405060708090a0b0c0d0e0f);
    let plain: [u8; 16] = [
        0x00, 0x11, 0x22, 0x33, 0x44, 0x55, 0x66, 0x77, 0x88, 0x99, 0xaa, 0xbb, 0xcc, 0xdd, 0xee,
        0xff,
    ];
    let expected: [u8; 16] = [
        0x69, 0xc4, 0xe0, 0xd8, 0x6a, 0x7b, 0x04, 0x30, 0xd8, 0xcd, 0xb7, 0x80, 0x70, 0xb4, 0xc5,
        0x5a,
    ];
    let encrypted = cipher.cipher_block(&plain);
    assert_eq!(encrypted, expected);
    assert_eq!(cipher.inv_cipher_block(&encrypted), plain);
    for seed in 0..32u8 {
        let mut block = [0u8; 16];
        for i in 0..16 {
            block[i] = seed.wrapping_mul(31).wrapping_add((i as u8).wrapping_mul(17));
        }
        assert_eq!(cipher.inv_cipher_block(&cipher.cipher_block(&block)), block);
    }
}
