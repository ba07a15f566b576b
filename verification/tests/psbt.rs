use litecoin_mweb::encoding::{DecodeError, ParseFailure};
use litecoin_mweb::mimblewimble::PegOutCoin;
use litecoin_mweb::psbt::extract::{assemble_mw_tx, wire_input_from_map, wire_kernel_from_map, wire_output_from_map};
use litecoin_mweb::psbt::input::MwebInput;
use litecoin_mweb::psbt::kernel::{pegout_coin_from_psbt_value, pegout_psbt_value, MwebKernel};
use litecoin_mweb::psbt::output::MwebOutput;
use litecoin_mweb::psbt::raw::{deserialize_key_source, serialize_key_source, Key, KeySource};
use litecoin_mweb::psbt::{Error, MapProblem};
use litecoin_mweb::pubkey::PublicKey;

fn hex(s: &str) -> Vec<u8> {
    (0..s.len()).step_by(2).map(|i| u8::from_str_radix(&s[i..i + 2], 16).unwrap()).collect()
}

const G: &str = "0279be667ef9dcbbac55a06295ce870b07029bfcdb2dce28d959f2815b16f81798";
const G2: &str = "02c6047f9441ed7d6d3045406e95c07cd85c778e4b8cef3ca7abac09b95c709ee5";

fn key(s: &str) -> PublicKey {
    PublicKey::from_slice(&hex(s)).unwrap()
}

fn key_source() -> KeySource {
    KeySource { fingerprint: [0xde, 0xad, 0xbe, 0xef], path: vec![0x8000_0000, 1, 7] }
}

// ----- Kernel maps --------------------------------------------------------------------------------

fn sample_kernel() -> MwebKernel {
    MwebKernel {
        excess_commit: Some([9u8; 33]),
        stealth_commit: Some(hex(G)),
        fee: Some(1000),
        pegin_amount: Some(5),
        pegouts: vec![
            pegout_psbt_value(&PegOutCoin { amount: 700, script_pub_key: vec![0x51] }),
            pegout_psbt_value(&PegOutCoin { amount: 800, script_pub_key: vec![0x52, 0x53] }),
        ],
        lock_height: Some(2_257_920),
        features: Some(0x3f),
        extra_data: Some(vec![1, 2]),
        signature: Some([7u8; 64]),
        unknowns: vec![],
    }
}

#[test]
fn kernel_default_is_empty() {
    let k = MwebKernel::default();
    assert!(k.to_kv_pairs().is_empty());
    assert_eq!(k.serialize_ltcd_map(), vec![0x00]);
}

#[test]
fn kernel_kv_pairs_shape() {
    let pairs = sample_kernel().to_kv_pairs();
    let types: Vec<u8> = pairs.iter().map(|p| p.0).collect();
    assert_eq!(types, vec![0, 1, 2, 3, 4, 4, 5, 6, 7, 8]);
    assert_eq!(pairs[2].2, 1000u64.to_le_bytes().to_vec());
    assert_eq!(pairs[4].1, vec![0]);
    assert_eq!(pairs[5].1, vec![1]);
    assert_eq!(pairs[6].2, 2_257_920u32.to_le_bytes().to_vec());
    assert!(pairs.iter().filter(|p| p.0 != 4).all(|p| p.1.is_empty()));
}

#[test]
fn kernel_pairs_roundtrip() {
    let k = sample_kernel();
    let pairs = k.to_pairs();
    assert_eq!(pairs.len(), 10);
    assert_eq!(MwebKernel::from_pairs(pairs), k);
}

#[test]
fn kernel_apply_field_ignores_wrong_sizes() {
    let mut k = MwebKernel::default();
    k.apply_field(0, &[], &[1u8; 32]);
    k.apply_field(2, &[], &[1u8; 7]);
    k.apply_field(5, &[], &[1u8; 8]);
    k.apply_field(6, &[], &[]);
    k.apply_field(8, &[], &[1u8; 63]);
    k.apply_field(0x42, &[], &[1u8; 8]);
    assert_eq!(k, MwebKernel::default());
}

#[test]
fn kernel_apply_field_pegout_index_pads() {
    let mut k = MwebKernel::default();
    k.apply_field(4, &[2], &[0xaa]);
    assert_eq!(k.pegouts, vec![vec![], vec![], vec![0xaa]]);
    k.apply_field(4, &[0], &[0xbb]);
    assert_eq!(k.pegouts, vec![vec![0xbb], vec![], vec![0xaa]]);
    k.apply_field(4, &[], &[0xcc]);
    assert_eq!(k.pegouts, vec![vec![0xbb], vec![], vec![0xaa], vec![0xcc]]);
}

#[test]
fn kernel_ltcd_map_roundtrip() {
    let mut k = sample_kernel();
    k.unknowns = vec![(vec![0xfc, 0x01, 0x02], vec![0x33]), (vec![0x09], vec![])];
    let bytes = k.serialize_ltcd_map();
    assert_eq!(*bytes.last().unwrap(), 0x00);
    assert_eq!(MwebKernel::deserialize_ltcd_map(&bytes).unwrap(), k);
}

#[test]
fn kernel_ltcd_map_exact_bytes() {
    let k = MwebKernel { fee: Some(1), ..MwebKernel::default() };
    assert_eq!(k.serialize_ltcd_map(), vec![0x01, 0x02, 0x08, 1, 0, 0, 0, 0, 0, 0, 0, 0x00]);
}

#[test]
fn kernel_ltcd_map_skips_unknown_with_empty_key() {
    let k = MwebKernel { unknowns: vec![(vec![], vec![1])], ..MwebKernel::default() };
    assert_eq!(k.serialize_ltcd_map(), vec![0x00]);
}

#[test]
fn kernel_ltcd_map_errors() {
    assert_eq!(MwebKernel::deserialize_ltcd_map(&[]), Err(Error::ConsensusEncoding(DecodeError::UnexpectedEof)));
    assert_eq!(
        MwebKernel::deserialize_ltcd_map(&[0x01, 0x02, 0x08, 1, 0]),
        Err(Error::ConsensusEncoding(DecodeError::UnexpectedEof))
    );
    // Key length 4_000_002 (CompactSize 0xfe) is over the vector limit.
    assert_eq!(
        MwebKernel::deserialize_ltcd_map(&[0xfe, 0x02, 0x09, 0x3d, 0x00]),
        Err(Error::OversizedVectorAllocation { requested: 4_000_001, max: 4_000_000 })
    );
    assert_eq!(
        MwebKernel::deserialize_ltcd_map(&[0xfd, 0x01, 0x00]),
        Err(Error::ConsensusEncoding(DecodeError::NonMinimalVarInt))
    );
}

#[test]
fn kernel_ltcd_map_stops_at_separator() {
    let k = MwebKernel::deserialize_ltcd_map(&[0x00, 0x01, 0x02]).unwrap();
    assert_eq!(k, MwebKernel::default());
}

#[test]
fn kernel_combine_keeps_existing() {
    let mut a = MwebKernel { fee: Some(1), ..MwebKernel::default() };
    let b = MwebKernel { fee: Some(2), pegin_amount: Some(3), pegouts: vec![vec![1]], ..MwebKernel::default() };
    a.combine(b.clone());
    assert_eq!(a.fee, Some(1));
    assert_eq!(a.pegin_amount, Some(3));
    assert_eq!(a.pegouts, vec![vec![1]]);
    let mut e = MwebKernel::default();
    e.combine(b.clone());
    assert_eq!(e, b);
    let mut same = b.clone();
    same.combine(b.clone());
    assert_eq!(same, b);
    let mut c = b.clone();
    c.combine(MwebKernel::default());
    assert_eq!(c, b);
}

// ----- Peg-out values -----------------------------------------------------------------------------

#[test]
fn pegout_psbt_value_roundtrip() {
    let coin = PegOutCoin { amount: 100_000_000, script_pub_key: hex("76a91413c60d8e68d7349f5b4ca362c3954b15045061b188ac") };
    let v = pegout_psbt_value(&coin);
    assert_eq!(&v[..8], &100_000_000u64.to_le_bytes());
    assert_eq!(v[8], 25);
    assert_eq!(pegout_coin_from_psbt_value(&v).unwrap(), coin);
}

#[test]
fn pegout_psbt_value_errors() {
    assert_eq!(
        pegout_coin_from_psbt_value(&[0u8; 7]),
        Err(Error::IncompleteMwebMaps(MapProblem::KernelPegoutTooShort))
    );
    assert_eq!(MapProblem::KernelPegoutTooShort.message(), "kernel pegout value too short");
    assert_eq!(
        pegout_coin_from_psbt_value(&[0u8; 8]),
        Err(Error::ConsensusEncoding(DecodeError::UnexpectedEof))
    );
    let mut v = pegout_psbt_value(&PegOutCoin { amount: 1, script_pub_key: vec![0x51] });
    v.push(0);
    assert_eq!(
        pegout_coin_from_psbt_value(&v),
        Err(Error::ConsensusEncoding(DecodeError::ParseFailed(ParseFailure::DataNotConsumed)))
    );
}

#[test]
fn pegout_psbt_value_negative_amount() {
    let coin = PegOutCoin { amount: -1, script_pub_key: vec![] };
    let v = pegout_psbt_value(&coin);
    assert_eq!(v, vec![0xff; 8].into_iter().chain([0u8]).collect::<Vec<u8>>());
    assert_eq!(pegout_coin_from_psbt_value(&v).unwrap(), coin);
}

// ----- Output maps --------------------------------------------------------------------------------

fn sample_output_map() -> MwebOutput {
    let mut blob = hex(G);
    blob.push(0x42);
    blob.extend_from_slice(&0x0102030405060708u64.to_le_bytes());
    blob.extend_from_slice(&[6u8; 16]);
    MwebOutput {
        stealth_address: Some(vec![1u8; 66]),
        commit: Some([8u8; 33]),
        features: Some(1),
        sender_pubkey: Some(hex(G)),
        output_pubkey: Some(hex(G2)),
        standard_fields: Some(blob),
        range_proof: Some(vec![3u8; 675]),
        signature: Some(vec![4u8; 64]),
        extra_data: Some(vec![5]),
    }
}

#[test]
fn output_pairs_roundtrip() {
    let o = sample_output_map();
    let pairs = o.to_pairs();
    let types: Vec<u8> = pairs.iter().map(|p| p.0).collect();
    assert_eq!(types, vec![0x90, 0x91, 0x92, 0x93, 0x94, 0x95, 0x96, 0x97, 0x98]);
    assert_eq!(MwebOutput::from_pairs(pairs), o);
    assert!(MwebOutput::default().to_pairs().is_empty());
}

#[test]
fn output_apply_field_rules() {
    let mut o = MwebOutput::default();
    o.apply_field(0x91, &[1u8; 32]);
    o.apply_field(0x92, &[]);
    o.apply_field(0x99, &[1]);
    assert_eq!(o, MwebOutput::default());
    o.apply_field(0x92, &[7, 8]);
    assert_eq!(o.features, Some(7));
}

#[test]
fn output_from_unknown_map_filters() {
    let unknown = vec![
        (Key { type_value: 0x8f, key: vec![] }, vec![1]),
        (Key { type_value: 0x90, key: vec![] }, vec![2]),
        (Key { type_value: 0x91, key: vec![1] }, vec![3u8; 33]),
        (Key { type_value: 0x98, key: vec![] }, vec![4]),
        (Key { type_value: 0x99, key: vec![] }, vec![5]),
    ];
    let o = MwebOutput::from_unknown_map(&unknown);
    assert_eq!(
        o,
        MwebOutput { stealth_address: Some(vec![2]), extra_data: Some(vec![4]), ..MwebOutput::default() }
    );
}

#[test]
fn output_unknown_map_roundtrip() {
    let o = sample_output_map();
    let unknown: Vec<(Key, Vec<u8>)> =
        o.to_pairs().into_iter().map(|(t, v)| (Key { type_value: t, key: vec![] }, v)).collect();
    assert_eq!(MwebOutput::from_unknown_map(&unknown), o);
}

#[test]
fn output_combine_keeps_existing() {
    let mut a = MwebOutput { features: Some(1), ..MwebOutput::default() };
    let b = MwebOutput { features: Some(2), extra_data: Some(vec![1]), ..MwebOutput::default() };
    a.combine(b.clone());
    assert_eq!(a, MwebOutput { features: Some(1), extra_data: Some(vec![1]), ..MwebOutput::default() });
    let mut e = MwebOutput::default();
    e.combine(b.clone());
    assert_eq!(e, b);
}

// ----- Input maps ---------------------------------------------------------------------------------

fn sample_input_map() -> MwebInput {
    MwebInput {
        output_id: Some([1u8; 32]),
        commit: Some([2u8; 33]),
        output_pubkey: Some(hex(G)),
        input_pubkey: Some(hex(G2)),
        features: Some(1),
        signature: Some(vec![3u8; 64]),
        address_index: Some(7),
        amount: Some(100_000),
        shared_secret: Some([4u8; 32]),
        key_exchange_pubkey: Some(hex(G2)),
        master_scan_key_origin: Some((key(G), key_source())),
        master_spend_key_origin: Some((key(G2), KeySource { fingerprint: [1, 2, 3, 4], path: vec![] })),
        extra_data: Some(vec![9]),
    }
}

#[test]
fn input_kv_pairs_roundtrip() {
    let i = sample_input_map();
    let kv = i.to_kv_pairs();
    let types: Vec<u8> = kv.iter().map(|p| p.0).collect();
    assert_eq!(types, (0x90u8..=0x9c).collect::<Vec<u8>>());
    assert_eq!(kv[10].1, hex(G));
    assert_eq!(kv[10].2, serialize_key_source(&key_source()));
    assert_eq!(MwebInput::from_kv_pairs(kv), i);
}

#[test]
fn input_pairs_leave_out_origins() {
    let i = sample_input_map();
    let pairs = i.to_pairs();
    assert_eq!(pairs.len(), 11);
    let back = MwebInput::from_pairs(pairs);
    assert_eq!(back, MwebInput { master_scan_key_origin: None, master_spend_key_origin: None, ..i });
}

#[test]
fn input_apply_kv_field_rules() {
    let mut i = MwebInput::default();
    i.apply_kv_field(0x90, &[1], &[0u8; 32]);
    i.apply_kv_field(0x90, &[], &[0u8; 31]);
    i.apply_kv_field(0x96, &[], &[0u8; 3]);
    i.apply_kv_field(0x9a, &[0u8; 33], &serialize_key_source(&key_source()));
    i.apply_kv_field(0x9a, &hex(G), &[1, 2, 3]);
    i.apply_kv_field(0x9d, &[], &[1]);
    assert_eq!(i, MwebInput::default());
    i.apply_field(0x96, &[7, 0, 0, 1]);
    assert_eq!(i.address_index, Some(0x0100_0007));
    i.apply_kv_field(0x9b, &hex(G2), &[1, 2, 3, 4]);
    assert_eq!(i.master_spend_key_origin, Some((key(G2), KeySource { fingerprint: [1, 2, 3, 4], path: vec![] })));
}

#[test]
fn input_from_unknown_map_uses_key_data() {
    let unknown = vec![
        (Key { type_value: 0x8f, key: vec![] }, vec![1]),
        (Key { type_value: 0x97, key: vec![] }, 5u64.to_le_bytes().to_vec()),
        (Key { type_value: 0x9a, key: hex(G) }, serialize_key_source(&key_source())),
        (Key { type_value: 0x9d, key: vec![] }, vec![1]),
    ];
    let i = MwebInput::from_unknown_map(&unknown);
    assert_eq!(
        i,
        MwebInput { amount: Some(5), master_scan_key_origin: Some((key(G), key_source())), ..MwebInput::default() }
    );
}

#[test]
fn input_validate_key_origins() {
    assert!(MwebInput::default().validate_key_origins().is_ok());
    assert!(sample_input_map().validate_key_origins().is_ok());
    let partial = MwebInput { address_index: Some(1), ..MwebInput::default() };
    assert_eq!(
        partial.validate_key_origins(),
        Err(Error::IncompleteMwebMaps(MapProblem::IncompleteKeyOrigins))
    );
    assert_eq!(
        MapProblem::IncompleteKeyOrigins.message(),
        "incomplete MWEB key origins (need scan, spend, and address index)"
    );
}

#[test]
fn input_combine_keeps_existing() {
    let mut a = MwebInput { amount: Some(1), ..MwebInput::default() };
    a.combine(sample_input_map());
    assert_eq!(a, MwebInput { amount: Some(1), ..sample_input_map() });
}

#[test]
fn key_source_roundtrip_and_errors() {
    let ks = key_source();
    let bytes = serialize_key_source(&ks);
    assert_eq!(bytes, vec![0xde, 0xad, 0xbe, 0xef, 0, 0, 0, 0x80, 1, 0, 0, 0, 7, 0, 0, 0]);
    assert_eq!(deserialize_key_source(&bytes), Some(ks));
    assert_eq!(deserialize_key_source(&[1, 2, 3]), None);
    assert_eq!(deserialize_key_source(&[1, 2, 3, 4, 5]), None);
}

// ----- Extraction ---------------------------------------------------------------------------------

#[test]
fn assemble_transaction_from_maps() {
    let tx = assemble_mw_tx([0x11; 32], [0x22; 32], &[sample_input_map()], &[sample_output_map()], &[sample_kernel()])
        .unwrap();
    assert_eq!(tx.kernel_offset, [0x11; 32]);
    assert_eq!(tx.stealth_offset, [0x22; 32]);
    let input = &tx.body.inputs[0];
    assert_eq!(input.output_public_key, key(G));
    assert_eq!(input.input_public_key, Some(key(G2)));
    assert_eq!(input.extra_data, vec![9]);
    let output = &tx.body.outputs[0];
    let sf = output.message.standard_fields.as_ref().unwrap();
    assert_eq!(sf.view_tag, 0x42);
    assert_eq!(sf.masked_value, 0x0102030405060708);
    assert_eq!(sf.masked_nonce, [6u8; 16]);
    assert_eq!(output.range_proof, [3u8; 675]);
    let kernel = &tx.body.kernels[0];
    assert_eq!(kernel.fee, Some(1000));
    assert_eq!(kernel.pegouts, vec![
        PegOutCoin { amount: 700, script_pub_key: vec![0x51] },
        PegOutCoin { amount: 800, script_pub_key: vec![0x52, 0x53] },
    ]);
    assert_eq!(kernel.stealth_excess, Some(key(G)));
    assert_eq!(kernel.features, 0x3f);
}

#[test]
fn assemble_defaults_for_missing_optional_fields() {
    let mut i = sample_input_map();
    i.features = None;
    i.input_pubkey = None;
    i.extra_data = None;
    let input = wire_input_from_map(&i).unwrap();
    assert_eq!(input.features, 0);
    assert_eq!(input.input_public_key, None);
    assert!(input.extra_data.is_empty());
    let mut o = sample_output_map();
    o.standard_fields = Some(vec![0u8; 57]);
    assert_eq!(wire_output_from_map(&o).unwrap().message.standard_fields, None);
    let mut k = sample_kernel();
    k.fee = Some(u64::MAX);
    k.stealth_commit = None;
    let kernel = wire_kernel_from_map(&k).unwrap();
    assert_eq!(kernel.fee, Some(-1));
    assert_eq!(kernel.stealth_excess, None);
}

#[test]
fn assemble_input_errors() {
    let cases: Vec<(Box<dyn Fn(&mut MwebInput)>, Error)> = vec![
        (Box::new(|i| i.output_id = None), Error::IncompleteMwebMaps(MapProblem::InputMissingOutputId)),
        (Box::new(|i| i.commit = None), Error::IncompleteMwebMaps(MapProblem::InputMissingCommit)),
        (Box::new(|i| i.output_pubkey = None), Error::IncompleteMwebMaps(MapProblem::InputMissingOutputPubkey)),
        (Box::new(|i| i.output_pubkey = Some(vec![0u8; 33])), Error::InvalidSecp256k1PublicKey),
        (Box::new(|i| i.input_pubkey = Some(vec![1, 2])), Error::InvalidSecp256k1PublicKey),
        (Box::new(|i| i.signature = None), Error::IncompleteMwebMaps(MapProblem::InputMissingSignature)),
        (Box::new(|i| i.signature = Some(vec![0u8; 65])), Error::IncompleteMwebMaps(MapProblem::InputSignatureLength)),
    ];
    for (change, err) in cases {
        let mut i = sample_input_map();
        change(&mut i);
        assert_eq!(assemble_mw_tx([0; 32], [0; 32], &[i], &[], &[sample_kernel()]), Err(err));
    }
}

#[test]
fn assemble_output_errors() {
    let cases: Vec<(Box<dyn Fn(&mut MwebOutput)>, Error)> = vec![
        (Box::new(|o| o.commit = None), Error::IncompleteMwebMaps(MapProblem::OutputMissingCommit)),
        (Box::new(|o| o.sender_pubkey = None), Error::IncompleteMwebMaps(MapProblem::OutputMissingSenderPubkey)),
        (Box::new(|o| o.sender_pubkey = Some(vec![5u8; 33])), Error::InvalidSecp256k1PublicKey),
        (Box::new(|o| o.output_pubkey = None), Error::IncompleteMwebMaps(MapProblem::OutputMissingOutputPubkey)),
        (Box::new(|o| o.standard_fields = Some(vec![0u8; 58])), Error::InvalidSecp256k1PublicKey),
        (Box::new(|o| o.range_proof = None), Error::IncompleteMwebMaps(MapProblem::OutputMissingRangeProof)),
        (Box::new(|o| o.range_proof = Some(vec![0u8; 674])), Error::IncompleteMwebMaps(MapProblem::OutputRangeProofLength)),
        (Box::new(|o| o.signature = None), Error::IncompleteMwebMaps(MapProblem::OutputMissingSignature)),
        (Box::new(|o| o.signature = Some(vec![])), Error::IncompleteMwebMaps(MapProblem::OutputSignatureLength)),
    ];
    for (change, err) in cases {
        let mut o = sample_output_map();
        change(&mut o);
        assert_eq!(assemble_mw_tx([0; 32], [0; 32], &[], &[o], &[sample_kernel()]), Err(err));
    }
}

#[test]
fn assemble_kernel_errors() {
    let cases: Vec<(Box<dyn Fn(&mut MwebKernel)>, Error)> = vec![
        (Box::new(|k| k.excess_commit = None), Error::IncompleteMwebMaps(MapProblem::KernelMissingExcess)),
        (Box::new(|k| k.signature = None), Error::IncompleteMwebMaps(MapProblem::KernelMissingSignature)),
        (Box::new(|k| k.pegouts.push(vec![1, 2])), Error::IncompleteMwebMaps(MapProblem::KernelPegoutTooShort)),
        (Box::new(|k| k.stealth_commit = Some(vec![0u8; 33])), Error::InvalidSecp256k1PublicKey),
    ];
    for (change, err) in cases {
        let mut k = sample_kernel();
        change(&mut k);
        assert_eq!(assemble_mw_tx([0; 32], [0; 32], &[], &[], &[k]), Err(err));
    }
}

#[test]
fn assemble_reports_first_failing_map() {
    let mut bad_input = sample_input_map();
    bad_input.commit = None;
    let mut bad_output = sample_output_map();
    bad_output.commit = None;
    let mut bad_kernel = sample_kernel();
    bad_kernel.signature = None;
    assert_eq!(
        assemble_mw_tx([0; 32], [0; 32], &[sample_input_map(), bad_input], &[bad_output.clone()], &[bad_kernel.clone()]),
        Err(Error::IncompleteMwebMaps(MapProblem::InputMissingCommit))
    );
    assert_eq!(
        assemble_mw_tx([0; 32], [0; 32], &[], &[bad_output], &[bad_kernel.clone()]),
        Err(Error::IncompleteMwebMaps(MapProblem::OutputMissingCommit))
    );
    assert_eq!(
        assemble_mw_tx([0; 32], [0; 32], &[], &[], &[sample_kernel(), bad_kernel]),
        Err(Error::IncompleteMwebMaps(MapProblem::KernelMissingSignature))
    );
}

#[test]
fn assemble_with_no_maps_is_empty_body() {
    let tx = assemble_mw_tx([1; 32], [2; 32], &[], &[], &[]).unwrap();
    assert!(tx.body.inputs.is_empty() && tx.body.outputs.is_empty() && tx.body.kernels.is_empty());
}

#[test]
fn input_pairs_hold_no_origin_types() {
    let pairs = sample_input_map().to_pairs();
    assert!(pairs.iter().all(|p| p.0 != 0x9a && p.0 != 0x9b));
}

#[test]
fn input_apply_field_never_sets_origins() {
    let mut i = MwebInput::default();
    i.apply_field(0x9a, &serialize_key_source(&key_source()));
    i.apply_field(0x9b, &serialize_key_source(&key_source()));
    assert_eq!(i, MwebInput::default());
    let mut j = sample_input_map();
    j.apply_field(0x9a, &[1, 2, 3, 4]);
    assert_eq!(j, sample_input_map());
}
