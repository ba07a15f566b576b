use litecoin_mweb::encoding::{DecodeError, ParseFailure};
use litecoin_mweb::mimblewimble::{
    Input, Kernel, KernelFeatures, Output, OutputFeatures, OutputMessage,
    OutputMessageStandardFields, PegOutCoin, Transaction, TxBody,
};
use litecoin_mweb::pubkey::PublicKey;
use litecoin_mweb::varint::{read_amount, read_compact_varint, write_amount, write_compact_varint};
use litecoin_mweb::wire::{deserialize, serialize, EncodeError, Wire};

fn hex(s: &str) -> Vec<u8> {
    (0..s.len()).step_by(2).map(|i| u8::from_str_radix(&s[i..i + 2], 16).unwrap()).collect()
}

fn generator() -> PublicKey {
    PublicKey::from_slice(&hex("0279be667ef9dcbbac55a06295ce870b07029bfcdb2dce28d959f2815b16f81798")).unwrap()
}

fn double_generator() -> PublicKey {
    PublicKey::from_slice(&hex("02c6047f9441ed7d6d3045406e95c07cd85c778e4b8cef3ca7abac09b95c709ee5")).unwrap()
}

fn parse_failure(err: DecodeError) -> ParseFailure {
    match err {
        DecodeError::ParseFailed(f) => f,
        other => panic!("expected ParseFailed, got {other:?}"),
    }
}

#[test]
fn amount_roundtrip() {
    for amount in [
        0i64,
        1,
        127,
        128,
        255,
        256,
        1000,
        1_000_000,
        100_000_000,
        8_400_000_000_000_000,
        i64::MAX,
    ] {
        let mut buf = Vec::new();
        let n = write_amount(amount, &mut buf);
        assert_eq!(n, buf.len(), "len mismatch for {amount}");
        let (decoded, _) = read_amount(&buf, 0).unwrap();
        assert_eq!(decoded, amount, "decode mismatch for {amount}");
    }
}

#[test]
fn compact_varint_roundtrip() {
    for v in [0u64, 1, 127, 128, 255, 256, 1000, 1 << 32, u64::MAX - 1] {
        let mut buf = Vec::new();
        write_compact_varint(v, &mut buf);
        let (decoded, _) = read_compact_varint(&buf, 0).unwrap();
        assert_eq!(decoded, v);
    }
}

#[test]
fn pegout_coin_roundtrip() {
    let coin = PegOutCoin {
        amount: 100_000_000,
        script_pub_key: hex("76a91413c60d8e68d7349f5b4ca362c3954b15045061b188ac"),
    };
    let encoded = serialize(&coin).unwrap();
    let decoded: PegOutCoin = deserialize(&encoded).unwrap();
    assert_eq!(coin, decoded);
}

#[test]
fn pegout_coin_empty_script_rejected() {
    let buf = vec![0x01, 0x00];
    match deserialize::<PegOutCoin>(&buf) {
        Err(DecodeError::ParseFailed(f)) => {
            assert_eq!(f.message(), "Pegout scriptPubKey must not be empty")
        }
        other => panic!("expected ParseFailed, got {other:?}"),
    }
}

#[test]
fn kernel_minimal_features_roundtrip() {
    let kernel = Kernel {
        features: KernelFeatures::FeeFeatureBit.bit(),
        fee: Some(1000),
        pegin: None,
        pegouts: vec![],
        lock_height: None,
        stealth_excess: None,
        extra_data: vec![],
        excess: [1u8; 33],
        signature: [2u8; 64],
    };
    let encoded = serialize(&kernel).unwrap();
    let decoded: Kernel = deserialize(&encoded).unwrap();
    assert_eq!(kernel, decoded);
}

#[test]
fn kernel_height_lock_roundtrip() {
    let kernel = Kernel {
        features: KernelFeatures::HeightLockFeatureBit.bit(),
        fee: None,
        pegin: None,
        pegouts: vec![],
        lock_height: Some(2_257_920),
        stealth_excess: None,
        extra_data: vec![],
        excess: [0u8; 33],
        signature: [0u8; 64],
    };
    let encoded = serialize(&kernel).unwrap();
    let decoded: Kernel = deserialize(&encoded).unwrap();
    assert_eq!(decoded.lock_height, kernel.lock_height);
    assert_eq!(decoded, kernel);
}

#[test]
fn lock_height_above_u32_max_rejected() {
    let mut buf = vec![KernelFeatures::HeightLockFeatureBit.bit()];
    write_amount(1i64 << 32, &mut buf);
    match deserialize::<Kernel>(&buf) {
        Err(DecodeError::ParseFailed(f)) => assert_eq!(f.message(), "Kernel lock_height out of range"),
        other => panic!("expected ParseFailed, got {other:?}"),
    }
}

#[test]
fn kernel_encoder_rejects_inconsistent_feature_bits() {
    let kernel = Kernel {
        features: KernelFeatures::FeeFeatureBit.bit(),
        fee: None,
        pegin: None,
        pegouts: vec![],
        lock_height: None,
        stealth_excess: None,
        extra_data: vec![],
        excess: [0u8; 33],
        signature: [0u8; 64],
    };
    let mut buf = Vec::new();
    let err = kernel.consensus_encode(&mut buf).expect_err("must error");
    assert_eq!(err, EncodeError::KernelFeeMissing);
}

#[test]
fn invalid_stealth_excess_returns_parse_error() {
    let mut buf = vec![KernelFeatures::StealthExcessFeatureBit.bit()];
    buf.extend_from_slice(&[0u8; 33]);
    buf.extend_from_slice(&[0u8; 33]);
    buf.extend_from_slice(&[0u8; 64]);
    match deserialize::<Kernel>(&buf) {
        Err(DecodeError::ParseFailed(f)) => assert_eq!(f.message(), "invalid kernel stealth excess"),
        other => panic!("expected ParseFailed, got {other:?}"),
    }
}

// ----- Varints ------------------------------------------------------------------------------------

#[test]
fn compact_varint_exact_bytes() {
    let cases: [(u64, &[u8]); 6] = [
        (0, &[0x00]),
        (127, &[0x7f]),
        (128, &[0x80, 0x00]),
        (255, &[0x80, 0x7f]),
        (256, &[0x81, 0x00]),
        (16511, &[0xff, 0x7f]),
    ];
    for (v, bytes) in cases {
        let mut buf = Vec::new();
        let n = write_compact_varint(v, &mut buf);
        assert_eq!(buf, bytes, "bytes of {v}");
        assert_eq!(n, bytes.len());
        assert_eq!(read_compact_varint(bytes, 0).unwrap(), (v, bytes.len()));
    }
}

#[test]
fn compact_varint_reads_from_offset_and_stops_at_end_of_value() {
    let buf = [0xaa, 0x80, 0x00, 0x55];
    assert_eq!(read_compact_varint(&buf, 1).unwrap(), (128, 3));
}

#[test]
fn compact_varint_truncated_is_eof() {
    assert_eq!(read_compact_varint(&[0x80], 0), Err(DecodeError::UnexpectedEof));
    assert_eq!(read_amount(&[], 0), Err(DecodeError::UnexpectedEof));
}

#[test]
fn amount_overflow_rejected() {
    // i64::MAX encodes in 9 bytes; one more continuation byte overflows.
    let mut buf = Vec::new();
    write_amount(i64::MAX, &mut buf);
    assert_eq!(buf.len(), 9);
    let mut too_big = vec![0x80];
    too_big.extend_from_slice(&buf);
    too_big[1] |= 0x80;
    let f = parse_failure(read_amount(&too_big, 0).unwrap_err());
    assert_eq!(f, ParseFailure::VarintOverflow);
    assert_eq!(f.message(), "MWEB varint overflow");
}

#[test]
fn compact_varint_overflow_rejected() {
    let buf = [0xffu8; 11];
    let f = parse_failure(read_compact_varint(&buf, 0).unwrap_err());
    assert_eq!(f, ParseFailure::VarintOverflow);
}

#[test]
fn negative_amount_writes_low_seven_bits() {
    let mut buf = Vec::new();
    assert_eq!(write_amount(-1, &mut buf), 1);
    assert_eq!(buf, vec![0x7f]);
    let mut buf = Vec::new();
    write_amount(-128, &mut buf);
    assert_eq!(buf, vec![0x00]);
}

// ----- Kernels ------------------------------------------------------------------------------------

fn full_kernel() -> Kernel {
    Kernel {
        features: 0x3f,
        fee: Some(12345),
        pegin: Some(100_000_000),
        pegouts: vec![
            PegOutCoin { amount: 5, script_pub_key: vec![0x51] },
            PegOutCoin { amount: 70_000, script_pub_key: hex("0014ffffffffffffffffffffffffffffffffffffffff") },
        ],
        lock_height: Some(u32::MAX),
        stealth_excess: Some(generator()),
        extra_data: vec![1, 2, 3],
        excess: [9u8; 33],
        signature: [7u8; 64],
    }
}

#[test]
fn kernel_all_features_roundtrip() {
    let kernel = full_kernel();
    let encoded = serialize(&kernel).unwrap();
    assert_eq!(encoded[0], 0x3f);
    let decoded: Kernel = deserialize(&encoded).unwrap();
    assert_eq!(decoded, kernel);
}

#[test]
fn kernel_minimal_exact_bytes() {
    let kernel = Kernel {
        features: KernelFeatures::FeeFeatureBit.bit(),
        fee: Some(1000),
        pegin: None,
        pegouts: vec![],
        lock_height: None,
        stealth_excess: None,
        extra_data: vec![],
        excess: [1u8; 33],
        signature: [2u8; 64],
    };
    let encoded = serialize(&kernel).unwrap();
    let mut expected = vec![0x01, 0x86, 0x68];
    expected.extend_from_slice(&[1u8; 33]);
    expected.extend_from_slice(&[2u8; 64]);
    assert_eq!(encoded, expected);
}

#[test]
fn kernel_fields_without_bits_are_not_written() {
    let mut kernel = full_kernel();
    kernel.features = 0;
    let encoded = serialize(&kernel).unwrap();
    assert_eq!(encoded.len(), 1 + 33 + 64);
}

#[test]
fn kernel_encoder_missing_field_errors() {
    let mut k = full_kernel();
    k.pegin = None;
    assert_eq!(serialize(&k), Err(EncodeError::KernelPeginMissing));
    let mut k = full_kernel();
    k.lock_height = None;
    assert_eq!(serialize(&k), Err(EncodeError::KernelLockHeightMissing));
    let mut k = full_kernel();
    k.stealth_excess = None;
    assert_eq!(serialize(&k), Err(EncodeError::KernelStealthExcessMissing));
    assert_eq!(EncodeError::KernelFeeMissing.message(), "Kernel.fee bit set but None");
}

#[test]
fn lock_height_far_above_range_rejected() {
    // An amount whose value exceeds u32::MAX by a lot still fails the same way.
    let mut buf = vec![KernelFeatures::HeightLockFeatureBit.bit()];
    write_amount(i64::MAX, &mut buf);
    let f = parse_failure(deserialize::<Kernel>(&buf).unwrap_err());
    assert_eq!(f, ParseFailure::LockHeightOutOfRange);
}

#[test]
fn kernel_trailing_byte_not_consumed() {
    let mut encoded = serialize(&full_kernel()).unwrap();
    encoded.push(0);
    let f = parse_failure(deserialize::<Kernel>(&encoded).unwrap_err());
    assert_eq!(f, ParseFailure::DataNotConsumed);
}

#[test]
fn kernel_truncated_is_eof() {
    let encoded = serialize(&full_kernel()).unwrap();
    assert_eq!(deserialize::<Kernel>(&encoded[..encoded.len() - 1]), Err(DecodeError::UnexpectedEof));
}

// ----- Inputs, outputs, bodies, transactions --------------------------------------------------------

fn sample_input(features: u8) -> Input {
    Input {
        features,
        output_id: [3u8; 32],
        commitment: [4u8; 33],
        input_public_key: Some(double_generator()),
        output_public_key: generator(),
        extra_data: vec![0xde, 0xad],
        signature: [5u8; 64],
    }
}

fn sample_output(features: u8) -> Output {
    Output {
        commitment: [8u8; 33],
        sender_public_key: generator(),
        receiver_public_key: double_generator(),
        message: OutputMessage {
            features,
            standard_fields: Some(OutputMessageStandardFields {
                key_exchange_pubkey: generator(),
                view_tag: 0x42,
                masked_value: 0x0102030405060708,
                masked_nonce: [6u8; 16],
            }),
            extra_data: vec![9, 9],
        },
        range_proof: [1u8; 675],
        signature: [2u8; 64],
    }
}

#[test]
fn input_roundtrip() {
    let input = sample_input(3);
    let encoded = serialize(&input).unwrap();
    assert_eq!(encoded.len(), 1 + 32 + 33 + 33 + 33 + 3 + 64);
    assert_eq!(deserialize::<Input>(&encoded).unwrap(), input);
}

#[test]
fn input_without_key_bit_roundtrip() {
    let mut input = sample_input(0);
    input.input_public_key = None;
    input.extra_data = vec![];
    let encoded = serialize(&input).unwrap();
    assert_eq!(encoded.len(), 1 + 32 + 33 + 33 + 64);
    assert_eq!(deserialize::<Input>(&encoded).unwrap(), input);
}

#[test]
fn input_key_bit_without_key_fails_to_encode() {
    let mut input = sample_input(1);
    input.input_public_key = None;
    assert_eq!(serialize(&input), Err(EncodeError::InputPublicKeyMissing));
}

#[test]
fn input_invalid_keys_rejected() {
    let mut encoded = serialize(&sample_input(1)).unwrap();
    // Output public key starts after features, output id and commitment.
    encoded[1 + 32 + 33] = 0x05;
    let f = parse_failure(deserialize::<Input>(&encoded).unwrap_err());
    assert_eq!(f, ParseFailure::InvalidInputOutputPublicKey);
    let mut encoded = serialize(&sample_input(1)).unwrap();
    for b in &mut encoded[1 + 32 + 33 + 33..1 + 32 + 33 + 33 + 33] {
        *b = 0;
    }
    let f = parse_failure(deserialize::<Input>(&encoded).unwrap_err());
    assert_eq!(f, ParseFailure::InvalidInputPublicKey);
    assert_eq!(f.message(), "invalid input input_public_key");
}

#[test]
fn output_roundtrip() {
    let output = sample_output(OutputFeatures::StandardFieldsFeatureBit.bit() | OutputFeatures::ExtraDataFeatureBit.bit());
    let encoded = serialize(&output).unwrap();
    assert_eq!(deserialize::<Output>(&encoded).unwrap(), output);
}

#[test]
fn output_message_without_bits_drops_fields_on_the_wire() {
    let mut output = sample_output(0);
    output.message.standard_fields = None;
    output.message.extra_data = vec![];
    let encoded = serialize(&output).unwrap();
    assert_eq!(deserialize::<Output>(&encoded).unwrap(), output);
}

#[test]
fn output_invalid_sender_key_rejected() {
    let mut encoded = serialize(&sample_output(3)).unwrap();
    encoded[33] = 0x07;
    let f = parse_failure(deserialize::<Output>(&encoded).unwrap_err());
    assert_eq!(f, ParseFailure::InvalidSenderPublicKey);
    let mut encoded = serialize(&sample_output(3)).unwrap();
    encoded[66] = 0x07;
    let f = parse_failure(deserialize::<Output>(&encoded).unwrap_err());
    assert_eq!(f, ParseFailure::InvalidReceiverPublicKey);
}

#[test]
fn transaction_roundtrip() {
    let tx = Transaction {
        kernel_offset: [0x11; 32],
        stealth_offset: [0x22; 32],
        body: TxBody {
            inputs: vec![sample_input(3)],
            outputs: vec![sample_output(3)],
            kernels: vec![full_kernel()],
        },
    };
    let encoded = serialize(&tx).unwrap();
    assert_eq!(deserialize::<Transaction>(&encoded).unwrap(), tx);
}

#[test]
fn transaction_without_kernel_rejected() {
    let tx = Transaction {
        kernel_offset: [0; 32],
        stealth_offset: [0; 32],
        body: TxBody { inputs: vec![], outputs: vec![], kernels: vec![] },
    };
    let encoded = serialize(&tx).unwrap();
    assert_eq!(encoded, vec![0u8; 64 + 3]);
    let f = parse_failure(deserialize::<Transaction>(&encoded).unwrap_err());
    assert_eq!(f, ParseFailure::MissingKernel);
    assert_eq!(f.message(), "MWEB transaction must contain at least one kernel");
}

#[test]
fn tx_body_roundtrip() {
    let body = TxBody { inputs: vec![sample_input(0)], outputs: vec![], kernels: vec![full_kernel(), full_kernel()] };
    let mut body = body;
    body.inputs[0].input_public_key = None;
    body.inputs[0].extra_data = vec![];
    let encoded = serialize(&body).unwrap();
    assert_eq!(deserialize::<TxBody>(&encoded).unwrap(), body);
}

// ----- Public keys --------------------------------------------------------------------------------

#[test]
fn public_key_parse_and_serialize() {
    let g = hex("0279be667ef9dcbbac55a06295ce870b07029bfcdb2dce28d959f2815b16f81798");
    let pk = PublicKey::from_slice(&g).unwrap();
    assert_eq!(pk.serialize().to_vec(), g);
    let mut uncompressed = hex("0479be667ef9dcbbac55a06295ce870b07029bfcdb2dce28d959f2815b16f81798");
    uncompressed.extend(hex("483ada7726a3c4655da4fbfc0e1108a8fd17b448a68554199c47d08ffb10d4b8"));
    assert_eq!(PublicKey::from_slice(&uncompressed).unwrap(), pk);
    assert!(PublicKey::from_slice(&[0u8; 33]).is_none());
    assert!(PublicKey::from_slice(&g[..32]).is_none());
}

#[test]
fn kernel_encoded_after_other_bytes_reads_back() {
    let kernel = full_kernel();
    let mut buf = vec![0xaa, 0xbb];
    let n = kernel.consensus_encode(&mut buf).unwrap();
    assert_eq!(n, buf.len() - 2);
    let (decoded, end) = Kernel::consensus_decode(&buf, 2).unwrap();
    assert_eq!(decoded, kernel);
    assert_eq!(end, buf.len());
}

#[test]
fn output_and_input_encoded_after_other_bytes_read_back() {
    let mut buf = vec![0x01];
    let input = sample_input(3);
    input.consensus_encode(&mut buf).unwrap();
    let (decoded, end) = Input::consensus_decode(&buf, 1).unwrap();
    assert_eq!((decoded, end), (input, buf.len()));
    let mut buf = vec![0x02, 0x03];
    let output = sample_output(3);
    output.consensus_encode(&mut buf).unwrap();
    let (decoded, end) = Output::consensus_decode(&buf, 2).unwrap();
    assert_eq!((decoded, end), (output, buf.len()));
}
