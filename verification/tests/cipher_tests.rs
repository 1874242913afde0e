use rc5::InvalidParameter;
use rc5::RC5;

#[test]
fn test_encryption_decryption() {
    let key = b"my secret key";
    let rounds = 12;
    let rc5 = RC5::new(key, rounds).unwrap();

    let mut block = [0u8; 8];
    block.copy_from_slice(b"testtest");

    let original = block;
    rc5.encrypt_block(&mut block);
    assert_ne!(block, original); // Encrypted should be different

    rc5.decrypt_block(&mut block);
    assert_eq!(block, original); // Decrypted should match original
}

#[test]
fn test_invalid_rounds() {
    let key = b"test key";
    assert!(matches!(RC5::new(key, 0), Err(InvalidParameter::RoundCountZero)));
}

#[test]
fn test_empty_key() {
    let key = b"";
    assert!(matches!(RC5::new(key, 12), Err(InvalidParameter::EmptyKey)));
}

#[test]
fn test_single_byte_key_one_round() {
    // The smallest valid parameters still build a context that round-trips.
    let rc5 = RC5::new(&[0x7f], 1).unwrap();
    let mut block = *b"abcdefgh";
    rc5.encrypt_block(&mut block);
    rc5.decrypt_block(&mut block);
    assert_eq!(&block, b"abcdefgh");
}

#[test]
fn test_round_trip_various_blocks() {
    let rc5 = RC5::new(b"another key 42", 8).unwrap();
    let samples: [[u8; 8]; 4] = [
        [0; 8],
        [0xff; 8],
        [1, 2, 3, 4, 5, 6, 7, 8],
        *b"\x00\x80\x7f\xfe\x01\x10\xaa\x55",
    ];
    for sample in samples.iter() {
        let mut block = *sample;
        rc5.encrypt_block(&mut block);
        rc5.decrypt_block(&mut block);
        assert_eq!(&block, sample);
    }
}

#[test]
fn test_determinism() {
    // Two contexts built from the same parameters encrypt identically.
    let c1 = RC5::new(b"my secret key", 12).unwrap();
    let c2 = RC5::new(b"my secret key", 12).unwrap();
    let mut b1 = *b"testtest";
    let mut b2 = *b"testtest";
    c1.encrypt_block(&mut b1);
    c2.encrypt_block(&mut b2);
    assert_eq!(b1, b2);
    assert_eq!(c1.table_len(), c2.table_len());
    for i in 0..c1.table_len() {
        assert_eq!(c1.round_key(i), c2.round_key(i));
    }
}

#[test]
fn test_non_identity() {
    // A typical key does not leave a sample block unchanged.
    let rc5 = RC5::new(b"typical key", 12).unwrap();
    let mut block = [0u8; 8];
    rc5.encrypt_block(&mut block);
    assert_ne!(block, [0u8; 8]);
}

#[test]
fn test_avalanche_key_bit() {
    // Flipping one key bit changes the table and the ciphertext.
    let c1 = RC5::new(b"my secret key", 12).unwrap();
    let mut flipped = *b"my secret key";
    flipped[0] ^= 0x01;
    let c2 = RC5::new(&flipped, 12).unwrap();

    assert_eq!(c1.table_len(), c2.table_len());
    let mut tables_differ = false;
    for i in 0..c1.table_len() {
        if c1.round_key(i) != c2.round_key(i) {
            tables_differ = true;
        }
    }
    assert!(tables_differ);

    let mut b1 = *b"testtest";
    let mut b2 = *b"testtest";
    c1.encrypt_block(&mut b1);
    c2.encrypt_block(&mut b2);
    assert_ne!(b1, b2);
}

#[test]
fn test_table_size() {
    // The table always holds exactly 2 * (rounds + 1) words.
    let c1 = RC5::new(b"k", 1).unwrap();
    assert_eq!(c1.table_len(), 4);
    assert_eq!(c1.num_rounds(), 1);
    let c2 = RC5::new(b"my secret key", 12).unwrap();
    assert_eq!(c2.table_len(), 26);
    assert_eq!(c2.num_rounds(), 12);
    let c3 = RC5::new(b"0123456789abcdef", 20).unwrap();
    assert_eq!(c3.table_len(), 42);
}

#[test]
fn test_known_vector() {
    // The standard 12-round, 16-byte-key reference vector: an all-zero key
    // encrypts the all-zero block to 21 a5 db ee 15 4b 8f 6d.
    let rc5 = RC5::new(&[0u8; 16], 12).unwrap();
    let mut block = [0u8; 8];
    rc5.encrypt_block(&mut block);
    assert_eq!(block, [0x21, 0xa5, 0xdb, 0xee, 0x15, 0x4b, 0x8f, 0x6d]);
    rc5.decrypt_block(&mut block);
    assert_eq!(block, [0u8; 8]);
}
