use aes::ctr::increment_byte_array;
use aes::{AES, CTR};

#[test]
fn array_increment() {
    let mut arr = [0u8];
    increment_byte_array(&mut arr);
    assert_eq!(arr, [1u8]);

    let mut arr = [0xffu8];
    increment_byte_array(&mut arr);
    assert_eq!(arr, [0u8]);

    let mut arr = [1u8, 0xffu8];
    increment_byte_array(&mut arr);
    assert_eq!(arr, [2u8, 0u8]);

    let mut arr = [0xffu8, 0xffu8, 0xffu8];
    increment_byte_array(&mut arr);
    assert_eq!(arr, [0u8, 0u8, 0u8]);
}

#[test]
fn ctr_stream_works() {
    let key: [u8; 16] = [
        0xa6, 0x1f, 0x9b, 0x80, 0xc7, 0x39, 0x1e, 0x74, 0x01, 0xa9, 0x48, 0xd1, 0x03, 0x8b, 0x73,
        0x46,
    ];
    let nonce: Vec<u8> = vec![
        0x51, 0x03, 0x8c, 0xd6, 0x47, 0xab, 0xe8, 0x47, 0xf6, 0x2b, 0xdf, 0xae, 0x35, 0xd7, 0x01,
        0x93,
    ];
    let data: [u8; 16] = [
        0x53, 0x69, 0x78, 0x74, 0x65, 0x65, 0x6e, 0x20, 0x6c, 0x65, 0x74, 0x74, 0x65, 0x72, 0x73,
        0x21,
    ];

    let mut result: [u8; 16] = [0; 16];

    let expected: [u8; 16] = [
        0x95, 0x6b, 0xea, 0xea, 0xfd, 0x14, 0x54, 0x8b, 0x7a, 0xa6, 0x43, 0x56, 0xcd, 0x9c, 0x1b,
        0x61,
    ];

    let c = CTR::new(&key);
    // Encrypt
    let mut stream = c.get_stream(&nonce);
    for (i, d) in data.iter().enumerate() {
        result[i] = stream.encrypt_byte(*d);
    }
    assert_eq!(result, expected);

    // Now "decrypt"
    let mut stream = c.get_stream(&nonce);
    for (i, d) in expected.iter().enumerate() {
        result[i] = stream.encrypt_byte(*d);
    }
    assert_eq!(result, data);
}

#[test]
fn ctr_stream() {
    let data = vec![5u8, 7u8, 10u8];
    let key = [0u8; 16];
    let nonce = [0u8; 16];
    let ctr = aes::CTR::new(&key);
    let mut stream = ctr.get_stream(&nonce);

    let mut res: Vec<u8> = Vec::new();
    for d in data.iter() {
        res.push(stream.encrypt_byte(*d));
    }

    let mut stream = ctr.get_stream(&nonce);
    for (i, r) in res.iter().enumerate() {
        assert_eq!(data[i], stream.encrypt_byte(*r));
    }
}

#[test]
fn known_block_vector() {
    let key: [u8; 16] = [
        0x00, 0x01, 0x02, 0x03, 0x04, 0x05, 0x06, 0x07, 0x08, 0x09, 0x0a, 0x0b, 0x0c, 0x0d, 0x0e,
        0x0f,
    ];
    let plaintext: [u8; 16] = [
        0x00, 0x11, 0x22, 0x33, 0x44, 0x55, 0x66, 0x77, 0x88, 0x99, 0xaa, 0xbb, 0xcc, 0xdd, 0xee,
        0xff,
    ];
    let expected: [u8; 16] = [
        0x69, 0xc4, 0xe0, 0xd8, 0x6a, 0x7b, 0x04, 0x30, 0xd8, 0xcd, 0xb7, 0x80, 0x70, 0xb4, 0xc5,
        0x5a,
    ];
    let cipher = AES::new(&key);
    assert_eq!(cipher.encrypt_block(&plaintext), expected);
}

#[test]
fn key_schedule_determinism() {
    let key: [u8; 16] = [
        0xa6, 0x1f, 0x9b, 0x80, 0xc7, 0x39, 0x1e, 0x74, 0x01, 0xa9, 0x48, 0xd1, 0x03, 0x8b, 0x73,
        0x46,
    ];
    let a = AES::new(&key);
    let b = AES::new(&key);
    assert_eq!(a.round_keys, b.round_keys);

    let block: [u8; 16] = [
        0x00, 0x10, 0x20, 0x30, 0x40, 0x50, 0x60, 0x70, 0x80, 0x90, 0xa0, 0xb0, 0xc0, 0xd0, 0xe0,
        0xf0,
    ];
    assert_eq!(a.encrypt_block(&block), b.encrypt_block(&block));
}

#[test]
fn round_trip_across_blocks() {
    let key: [u8; 16] = [
        0x2b, 0x7e, 0x15, 0x16, 0x28, 0xae, 0xd2, 0xa6, 0xab, 0xf7, 0x15, 0x88, 0x09, 0xcf, 0x4f,
        0x3c,
    ];
    // A nonce shorter than a block: the tail of the counter block is zero.
    let nonce = [0xde, 0xad, 0xbe, 0xef];
    let data: Vec<u8> = (0u8..50u8).collect();

    let c = CTR::new(&key);
    let mut enc_stream = c.get_stream(&nonce);
    let ciphertext = enc_stream.encrypt_bytes(&data);
    assert_ne!(&ciphertext, &data);

    let mut dec_stream = c.get_stream(&nonce);
    let recovered = dec_stream.encrypt_bytes(&ciphertext);
    assert_eq!(recovered, data);
}

#[test]
fn chunking_independence() {
    let key: [u8; 16] = [
        0xa6, 0x1f, 0x9b, 0x80, 0xc7, 0x39, 0x1e, 0x74, 0x01, 0xa9, 0x48, 0xd1, 0x03, 0x8b, 0x73,
        0x46,
    ];
    let nonce = [0x42u8, 0x99u8];
    let data: Vec<u8> = (0u8..41u8).map(|b| b.wrapping_mul(7)).collect();

    let c = CTR::new(&key);

    // All at once.
    let mut s_whole = c.get_stream(&nonce);
    let whole = s_whole.encrypt_bytes(&data);

    // One byte at a time.
    let mut s_bytes = c.get_stream(&nonce);
    let mut byte_by_byte: Vec<u8> = Vec::new();
    for d in data.iter() {
        byte_by_byte.push(s_bytes.encrypt_byte(*d));
    }

    // In uneven chunks.
    let mut s_chunks = c.get_stream(&nonce);
    let mut chunked: Vec<u8> = Vec::new();
    for chunk in data.chunks(7) {
        chunked.extend_from_slice(&s_chunks.encrypt_bytes(&chunk.to_vec()));
    }

    assert_eq!(whole, byte_by_byte);
    assert_eq!(whole, chunked);
}

#[test]
fn counter_wraparound() {
    // A full 16-byte block of 0xff wraps to all zeroes.
    let mut block = [0xffu8; 16];
    increment_byte_array(&mut block);
    assert_eq!(block, [0u8; 16]);

    // A trailing run of 0xff carries into the byte before it.
    let mut arr = [0x10u8, 0x03u8, 0xffu8, 0xffu8];
    increment_byte_array(&mut arr);
    assert_eq!(arr, [0x10u8, 0x04u8, 0x00u8, 0x00u8]);

    // A stream seeded with an all-0xff nonce wraps its counter to the
    // all-zero block after the first 16 bytes, so from there it produces the
    // same keystream as a stream whose counter starts at all zeroes.
    let key = [0x77u8; 16];
    let c = CTR::new(&key);

    let mut wrapped = c.get_stream(&[0xffu8; 16]);
    let first_32 = wrapped.encrypt_bytes(&[0u8; 32]);

    let mut from_zero = c.get_stream(&[]);
    let zero_16 = from_zero.encrypt_bytes(&[0u8; 16]);

    assert_eq!(&first_32[16..32], &zero_16[..]);
}

#[test]
fn determinism_across_streams() {
    let key: [u8; 16] = [
        0x00, 0x01, 0x02, 0x03, 0x04, 0x05, 0x06, 0x07, 0x08, 0x09, 0x0a, 0x0b, 0x0c, 0x0d, 0x0e,
        0x0f,
    ];
    let nonce = [0xaau8, 0xbbu8, 0xccu8];
    let data: Vec<u8> = (0u8..40u8).collect();

    let c = CTR::new(&key);
    let mut s1 = c.get_stream(&nonce);
    let mut s2 = c.get_stream(&nonce);

    let out1 = s1.encrypt_bytes(&data);
    let mut out2: Vec<u8> = Vec::new();
    for d in data.iter() {
        out2.push(s2.encrypt_byte(*d));
    }
    assert_eq!(out1, out2);
}

#[test]
fn known_vector_through_encrypt_bytes() {
    let key: [u8; 16] = [
        0xa6, 0x1f, 0x9b, 0x80, 0xc7, 0x39, 0x1e, 0x74, 0x01, 0xa9, 0x48, 0xd1, 0x03, 0x8b, 0x73,
        0x46,
    ];
    let nonce: Vec<u8> = vec![
        0x51, 0x03, 0x8c, 0xd6, 0x47, 0xab, 0xe8, 0x47, 0xf6, 0x2b, 0xdf, 0xae, 0x35, 0xd7, 0x01,
        0x93,
    ];
    let data: Vec<u8> = b"Sixteen letters!".to_vec();
    let expected: [u8; 16] = [
        0x95, 0x6b, 0xea, 0xea, 0xfd, 0x14, 0x54, 0x8b, 0x7a, 0xa6, 0x43, 0x56, 0xcd, 0x9c, 0x1b,
        0x61,
    ];

    let c = CTR::new(&key);
    let mut stream = c.get_stream(&nonce);
    assert_eq!(stream.encrypt_bytes(&data), expected.to_vec());
}

#[test]
fn empty_message() {
    let key = [0x01u8; 16];
    let c = CTR::new(&key);
    let mut stream = c.get_stream(&[0x02u8; 8]);
    let out = stream.encrypt_bytes(&Vec::new());
    assert_eq!(out, Vec::<u8>::new());
    // The stream is unperturbed: it still produces the same first byte as a
    // fresh one.
    let byte = stream.encrypt_byte(0);
    let mut fresh = c.get_stream(&[0x02u8; 8]);
    assert_eq!(byte, fresh.encrypt_byte(0));
}
