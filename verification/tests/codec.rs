use beefy_voter::codec::{
    decode_commitment, decode_finality_proof, decode_signed_commitment, decode_vote,
    encode_commitment, encode_finality_proof, encode_signed_commitment, encode_vote,
};
use beefy_voter::digest::{
    decode_consensus_log, encode_consensus_log, find_authorities_change, find_mmr_root_digest,
    ConsensusLog, DigestItem, Header, BEEFY_ENGINE_ID,
};
use beefy_voter::types::{
    AuthorityId, Commitment, MmrRootHash, Payload, PayloadEntry, Signature, SignedCommitment,
    ValidatorSet, VersionedFinalityProof, VoteMessage, MMR_ROOT_ID,
};
use parity_scale_codec::Encode;

fn commitment(data: Vec<u8>, block_number: u32, validator_set_id: u64) -> Commitment {
    Commitment { payload: Payload::new(MMR_ROOT_ID, data), block_number, validator_set_id }
}

fn vote() -> VoteMessage {
    VoteMessage {
        commitment: commitment(vec![9, 8, 7], 0x0102_0304, 0x1122_3344_5566_7788),
        id: AuthorityId::new(vec![2; 33]),
        signature: Signature::new(vec![5; 65]),
    }
}

fn signed_commitment() -> SignedCommitment {
    SignedCommitment {
        commitment: commitment(vec![1, 2, 3], 5, 7),
        signatures: vec![Some(Signature::new(vec![0xaa; 65])), None, Some(Signature::new(vec![]))],
    }
}

#[test]
fn commitment_bytes_are_exact() {
    let encoded = encode_commitment(&commitment(vec![1, 2, 3], 5, 7)).unwrap();
    let expected: Vec<u8> = vec![
        0x04, // one entry
        0x6d, 0x68, // its tag
        0x0c, 1, 2, 3, // its three bytes
        5, 0, 0, 0, // block number
        7, 0, 0, 0, 0, 0, 0, 0, // validator set id
    ];
    assert_eq!(encoded, expected);
}

#[test]
fn commitment_bytes_agree_with_the_codec_on_tuples() {
    let c = commitment(vec![0xde, 0xad, 0xbe, 0xef], 0xfffe_fdfc, 0xf1f2_f3f4_f5f6_f7f8);
    let as_tuple = (vec![(MMR_ROOT_ID, vec![0xdeu8, 0xad, 0xbe, 0xef])], 0xfffe_fdfcu32, 0xf1f2_f3f4_f5f6_f7f8u64);
    assert_eq!(encode_commitment(&c).unwrap(), as_tuple.encode());
}

#[test]
fn integers_are_little_endian() {
    let encoded = encode_commitment(&Commitment {
        payload: Payload { entries: vec![] },
        block_number: 0x0102_0304,
        validator_set_id: 0x1122_3344_5566_7788,
    })
    .unwrap();
    assert_eq!(
        encoded,
        vec![0x00, 0x04, 0x03, 0x02, 0x01, 0x88, 0x77, 0x66, 0x55, 0x44, 0x33, 0x22, 0x11]
    );
    let decoded = decode_commitment(&encoded).unwrap();
    assert_eq!(decoded.block_number, 0x0102_0304);
    assert_eq!(decoded.validator_set_id, 0x1122_3344_5566_7788);
}

#[test]
fn lengths_take_the_shortest_compact_form() {
    for (len, prefix) in [
        (0usize, vec![0x00u8]),
        (1, vec![0x04]),
        (63, vec![0xfc]),
        (64, vec![0x01, 0x01]),
        (16383, vec![0xfd, 0xff]),
        (16384, vec![0x02, 0x00, 0x01, 0x00]),
        (70000, vec![0xc2, 0x45, 0x04, 0x00]),
    ] {
        let data = vec![0x5au8; len];
        let encoded = encode_commitment(&commitment(data.clone(), 0, 0)).unwrap();
        // one entry, two bytes of tag, then the byte string
        assert_eq!(&encoded[3..3 + prefix.len()], &prefix[..], "length {}", len);
        assert_eq!(&encoded[3..encoded.len() - 12], &data.encode()[..], "length {}", len);
        assert_eq!(decode_commitment(&encoded), Some(commitment(data, 0, 0)));
    }
}

#[test]
fn commitment_round_trips() {
    let c = Commitment {
        payload: Payload {
            entries: vec![
                PayloadEntry { id: [b'm', b'h'], data: vec![1; 32] },
                PayloadEntry { id: [b'B', b'F'], data: vec![] },
                PayloadEntry { id: [0, 255], data: vec![7; 100] },
            ],
        },
        block_number: u32::MAX,
        validator_set_id: u64::MAX,
    };
    assert_eq!(decode_commitment(&encode_commitment(&c).unwrap()), Some(c));
}

#[test]
fn vote_round_trips() {
    let v = vote();
    let encoded = encode_vote(&v).unwrap();
    let as_tuple = (
        (vec![(MMR_ROOT_ID, vec![9u8, 8, 7])], 0x0102_0304u32, 0x1122_3344_5566_7788u64),
        vec![2u8; 33],
        vec![5u8; 65],
    );
    assert_eq!(encoded, as_tuple.encode());
    assert_eq!(decode_vote(&encoded), Some(v));
}

#[test]
fn signed_commitment_round_trips() {
    let sc = signed_commitment();
    let encoded = encode_signed_commitment(&sc).unwrap();
    let as_tuple = (
        (vec![(MMR_ROOT_ID, vec![1u8, 2, 3])], 5u32, 7u64),
        vec![Some(vec![0xaau8; 65]), None, Some(vec![])],
    );
    assert_eq!(encoded, as_tuple.encode());
    assert_eq!(decode_signed_commitment(&encoded), Some(sc));
}

#[test]
fn finality_proof_round_trips() {
    let proof = VersionedFinalityProof::V1(signed_commitment());
    let encoded = encode_finality_proof(&proof).unwrap();
    assert_eq!(encoded[0], 1);
    assert_eq!(&encoded[1..], &encode_signed_commitment(&signed_commitment()).unwrap()[..]);
    assert_eq!(decode_finality_proof(&encoded), Some(proof));
}

#[test]
fn unknown_proof_versions_are_refused() {
    let mut encoded = encode_finality_proof(&VersionedFinalityProof::V1(signed_commitment())).unwrap();
    for version in [0u8, 2, 3, 255] {
        encoded[0] = version;
        assert_eq!(decode_finality_proof(&encoded), None);
    }
    assert_eq!(decode_finality_proof(&[]), None);
}

#[test]
fn truncated_input_is_refused() {
    let encoded = encode_vote(&vote()).unwrap();
    for len in 0..encoded.len() {
        assert_eq!(decode_vote(&encoded[..len]), None, "prefix of {} bytes", len);
    }
    let encoded = encode_finality_proof(&VersionedFinalityProof::V1(signed_commitment())).unwrap();
    for len in 0..encoded.len() {
        assert_eq!(decode_finality_proof(&encoded[..len]), None, "prefix of {} bytes", len);
    }
}

#[test]
fn what_follows_is_ignored() {
    let mut encoded = encode_vote(&vote()).unwrap();
    encoded.extend_from_slice(&[1, 2, 3]);
    assert_eq!(decode_vote(&encoded), Some(vote()));
}

#[test]
fn overlong_compact_forms_are_refused() {
    // no entries, written in two bytes
    let mut bytes = vec![0x01, 0x00];
    bytes.extend_from_slice(&[0; 12]);
    assert_eq!(decode_commitment(&bytes), None);
    // no entries, written in four bytes
    let mut bytes = vec![0x02, 0x00, 0x00, 0x00];
    bytes.extend_from_slice(&[0; 12]);
    assert_eq!(decode_commitment(&bytes), None);
    // no entries, written in five bytes
    let mut bytes = vec![0x03, 0x00, 0x00, 0x00, 0x00];
    bytes.extend_from_slice(&[0; 12]);
    assert_eq!(decode_commitment(&bytes), None);
    // a number of more than 32 bits
    let mut bytes = vec![0x07, 0x00, 0x00, 0x00, 0x00, 0x01];
    bytes.extend_from_slice(&[0; 12]);
    assert_eq!(decode_commitment(&bytes), None);
    // the shortest form is taken
    let mut bytes = vec![0x00];
    bytes.extend_from_slice(&[0; 12]);
    assert_eq!(
        decode_commitment(&bytes),
        Some(Commitment { payload: Payload { entries: vec![] }, block_number: 0, validator_set_id: 0 })
    );
}

#[test]
fn optional_signature_tags_are_checked() {
    let sc = SignedCommitment { commitment: commitment(vec![], 1, 1), signatures: vec![None] };
    let mut encoded = encode_signed_commitment(&sc).unwrap();
    let last = encoded.len() - 1;
    assert_eq!(encoded[last], 0);
    encoded[last] = 2;
    assert_eq!(decode_signed_commitment(&encoded), None);
}

#[test]
fn consensus_log_round_trips() {
    let ids = vec![AuthorityId::new(vec![1; 33]), AuthorityId::new(vec![2; 33])];
    let logs = [
        ConsensusLog::AuthoritiesChange(ValidatorSet::new(ids, 42).unwrap()),
        ConsensusLog::OnDisabled(0x0a0b_0c0d),
        ConsensusLog::MmrRoot(MmrRootHash::new(vec![0xcd; 32]).unwrap()),
    ];
    for (log, tag) in logs.into_iter().zip([1u8, 2, 3]) {
        let encoded = encode_consensus_log(&log).unwrap();
        assert_eq!(encoded[0], tag);
        assert_eq!(decode_consensus_log(&encoded), Some(log));
    }
    assert_eq!(
        encode_consensus_log(&ConsensusLog::OnDisabled(0x0a0b_0c0d)).unwrap(),
        vec![2, 0x0d, 0x0c, 0x0b, 0x0a]
    );
    let mut root = vec![3u8];
    root.extend_from_slice(&[0xcd; 32]);
    assert_eq!(
        encode_consensus_log(&ConsensusLog::MmrRoot(MmrRootHash::new(vec![0xcd; 32]).unwrap())).unwrap(),
        root
    );
}

#[test]
fn consensus_log_refuses_what_is_no_log() {
    assert_eq!(decode_consensus_log(&[]), None);
    assert_eq!(decode_consensus_log(&[0]), None);
    assert_eq!(decode_consensus_log(&[4, 0, 0, 0, 0]), None);
    // a root of 31 bytes
    let mut short = vec![3u8];
    short.extend_from_slice(&[0; 31]);
    assert_eq!(decode_consensus_log(&short), None);
    // a place of three bytes
    assert_eq!(decode_consensus_log(&[2, 0, 0, 0]), None);
    // a validator set without validators
    assert_eq!(decode_consensus_log(&[1, 0, 0, 0, 0, 0, 0, 0, 0, 0]), None);
    // a root that is not 32 bytes long cannot be written
    assert_eq!(MmrRootHash::new(vec![0; 31]), None);
    assert_eq!(encode_consensus_log(&ConsensusLog::MmrRoot(MmrRootHash { raw: vec![0; 33] })), None);
}

fn root(byte: u8) -> MmrRootHash {
    MmrRootHash::new(vec![byte; 32]).unwrap()
}

fn root_item(byte: u8) -> DigestItem {
    DigestItem::Consensus(
        BEEFY_ENGINE_ID,
        encode_consensus_log(&ConsensusLog::MmrRoot(root(byte))).unwrap(),
    )
}

fn set(id: u64) -> ValidatorSet {
    ValidatorSet::new(vec![AuthorityId::new(vec![id as u8; 33])], id).unwrap()
}

fn set_item(id: u64) -> DigestItem {
    DigestItem::Consensus(
        BEEFY_ENGINE_ID,
        encode_consensus_log(&ConsensusLog::AuthoritiesChange(set(id))).unwrap(),
    )
}

#[test]
fn the_first_matching_digest_entry_is_taken() {
    let mut header = Header::new(7, vec![]);
    let log = encode_consensus_log(&ConsensusLog::MmrRoot(root(9))).unwrap();
    header.digest = vec![
        DigestItem::Other(log.clone()),
        DigestItem::RuntimeEnvironmentUpdated,
        // another engine
        DigestItem::Consensus([b'B', b'A', b'B', b'E'], log.clone()),
        // this engine, but not to it
        DigestItem::PreRuntime(BEEFY_ENGINE_ID, log.clone()),
        DigestItem::Seal(BEEFY_ENGINE_ID, log.clone()),
        // to this engine, but no log
        DigestItem::Consensus(BEEFY_ENGINE_ID, vec![9, 9, 9]),
        // a log of another kind
        DigestItem::Consensus(
            BEEFY_ENGINE_ID,
            encode_consensus_log(&ConsensusLog::OnDisabled(3)).unwrap(),
        ),
        set_item(5),
        root_item(1),
        set_item(6),
        root_item(2),
    ];
    assert_eq!(find_mmr_root_digest(&header), Some(root(1)));
    assert_eq!(find_authorities_change(&header), Some(set(5)));
    header.digest.truncate(7);
    assert_eq!(find_mmr_root_digest(&header), None);
    assert_eq!(find_authorities_change(&header), None);
}
