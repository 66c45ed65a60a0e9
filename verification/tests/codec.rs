use base64_nopad::DecodeError;
use base64_nopad::EncodeError;
use base64_nopad::char_to_index;
use base64_nopad::combine_bytes;
use base64_nopad::decode;
use base64_nopad::encode;
use base64_nopad::index_to_char;
use base64_nopad::split_bytes;

#[test]
fn test_character_mapping() {
    // Check that the char mapping produces is properly invertible
    for i in 0..63_u8 {
        assert_eq!(char_to_index(index_to_char(i).unwrap()).unwrap(), i);
    }
}

#[test]
fn test_encode_decode() {
    // Test encoding and decoding every possible byte
    // (but not every combination of 3-byte sequences)
    let input: &mut [u8; 258] = &mut [0_u8; 258];
    for i in 0..258 {
        input[i] = (i % 256) as u8;
    }
    let output = b"AAECAwQFBgcICQoLDA0ODxAREhMUFRYXGBkaGxwdHh8gISIjJCUmJygpKissLS4vMDEyMzQ1Njc4OTo7PD0+P0BBQkNERUZHSElKS0xNTk9QUVJTVFVWV1hZWltcXV5fYGFiY2RlZmdoaWprbG1ub3BxcnN0dXZ3eHl6e3x9fn+AgYKDhIWGh4iJiouMjY6PkJGSk5SVlpeYmZqbnJ2en6ChoqOkpaanqKmqq6ytrq+wsbKztLW2t7i5uru8vb6/wMHCw8TFxsfIycrLzM3Oz9DR0tPU1dbX2Nna29zd3t/g4eLj5OXm5+jp6uvs7e7v8PHy8/T19vf4+fr7/P3+/wAB";

    let input_de_buf = &mut [0_u8; 258];
    let output_ser_buf = &mut [0_u8; 344];

    encode(input, output_ser_buf).unwrap();
    decode(output, input_de_buf).unwrap();

    assert_eq!(input, input_de_buf);
    assert_eq!(output, output_ser_buf);
}

#[test]
fn test_bijection_both_directions() {
    // Every 6-bit index maps to a character and back to itself.
    for i in 0..=63_u8 {
        let c = index_to_char(i).unwrap();
        assert_eq!(char_to_index(c).unwrap(), i);
    }
    // Every byte that maps to an index maps back to itself; every other
    // byte is rejected.
    let alphabet = b"ABCDEFGHIJKLMNOPQRSTUVWXYZabcdefghijklmnopqrstuvwxyz0123456789+/";
    for b in 0..=255_u8 {
        match char_to_index(b) {
            Ok(i) => {
                assert!(alphabet.contains(&b));
                assert_eq!(index_to_char(i).unwrap(), b);
            }
            Err(e) => {
                assert!(!alphabet.contains(&b));
                assert_eq!(e, DecodeError::InvalidCharacter);
            }
        }
    }
}

#[test]
fn test_index_to_char_invalid_index() {
    assert_eq!(index_to_char(64), Err(EncodeError::InvalidIndex));
    assert_eq!(index_to_char(255), Err(EncodeError::InvalidIndex));
}

#[test]
fn test_char_to_index_invalid_character() {
    assert_eq!(char_to_index(b'='), Err(DecodeError::InvalidCharacter));
    assert_eq!(char_to_index(b' '), Err(DecodeError::InvalidCharacter));
    assert_eq!(char_to_index(0), Err(DecodeError::InvalidCharacter));
}

#[test]
fn test_split_combine_exact_values() {
    // "Man" is the classic vector: 77, 97, 110 split into 19, 22, 5, 46.
    let split = split_bytes(&[77, 97, 110]);
    assert_eq!(split, [19, 22, 5, 46]);
    let combined = combine_bytes(&split);
    assert_eq!(combined, [77, 97, 110]);
}

#[test]
fn test_concrete_vector() {
    // Encoding [0, 1, 2] yields "AAEC" and decoding "AAEC" yields [0, 1, 2].
    let mut encoded = [0_u8; 4];
    encode(&[0, 1, 2], &mut encoded).unwrap();
    assert_eq!(&encoded, b"AAEC");
    let mut decoded = [0_u8; 3];
    decode(b"AAEC", &mut decoded).unwrap();
    assert_eq!(decoded, [0, 1, 2]);
}

#[test]
fn test_round_trip() {
    // Decoding an encoding returns the original bytes.
    let input = b"Many hands make light work.";
    assert_eq!(input.len() % 3, 0);
    let mut encoded = [0_u8; 36];
    encode(input, &mut encoded).unwrap();
    assert_eq!(&encoded, b"TWFueSBoYW5kcyBtYWtlIGxpZ2h0IHdvcmsu");
    let mut decoded = [0_u8; 27];
    decode(&encoded, &mut decoded).unwrap();
    assert_eq!(&decoded, input);
}

#[test]
fn test_encode_invalid_input_length() {
    // Length 4 is not a multiple of 3.
    let mut out = [0_u8; 8];
    assert_eq!(
        encode(&[1, 2, 3, 4], &mut out),
        Err(EncodeError::InvalidInputLength)
    );
    assert_eq!(out, [0_u8; 8]);
}

#[test]
fn test_encode_invalid_output_length() {
    // The output buffer must be exactly 4/3 of the input length.
    let mut short = [7_u8; 3];
    assert_eq!(
        encode(&[1, 2, 3], &mut short),
        Err(EncodeError::InvalidOutputLength)
    );
    assert_eq!(short, [7_u8; 3]);
    let mut long = [7_u8; 5];
    assert_eq!(
        encode(&[1, 2, 3], &mut long),
        Err(EncodeError::InvalidOutputLength)
    );
    assert_eq!(long, [7_u8; 5]);
}

#[test]
fn test_decode_invalid_input_length() {
    // Length 5 is not a multiple of 4.
    let mut out = [0_u8; 3];
    assert_eq!(
        decode(b"AAECA", &mut out),
        Err(DecodeError::InvalidInputLength)
    );
    assert_eq!(out, [0_u8; 3]);
}

#[test]
fn test_decode_invalid_output_length() {
    // The output buffer must be exactly 3/4 of the input length.
    let mut short = [9_u8; 2];
    assert_eq!(
        decode(b"AAEC", &mut short),
        Err(DecodeError::InvalidOutputLength)
    );
    assert_eq!(short, [9_u8; 2]);
    let mut long = [9_u8; 4];
    assert_eq!(
        decode(b"AAEC", &mut long),
        Err(DecodeError::InvalidOutputLength)
    );
    assert_eq!(long, [9_u8; 4]);
}

#[test]
fn test_decode_invalid_character() {
    // '=' padding and spaces are outside the alphabet.
    let mut out = [0_u8; 3];
    assert_eq!(
        decode(b"AA=C", &mut out),
        Err(DecodeError::InvalidCharacter)
    );
    assert_eq!(
        decode(b"AA C", &mut out),
        Err(DecodeError::InvalidCharacter)
    );
}

#[test]
fn test_decode_partial_write_on_invalid_character() {
    // Chunks before the first invalid one stay decoded; the rest of the
    // output buffer is untouched.
    let mut out = [0xFF_u8; 6];
    assert_eq!(
        decode(b"AAECAA=C", &mut out),
        Err(DecodeError::InvalidCharacter)
    );
    assert_eq!(out, [0, 1, 2, 0xFF, 0xFF, 0xFF]);
}
