use beefy_voter::codec::{
    decode_commitment, decode_signed_commitment, decode_vote, encode_signed_commitment, encode_vote,
};
use beefy_voter::types::{
    AuthorityId, Commitment, Payload, PayloadEntry, Signature, SignedCommitment, VoteMessage,
};
use parity_scale_codec::{Decode, Encode};

type CommitmentTuple = (Vec<([u8; 2], Vec<u8>)>, u32, u64);
type VoteTuple = (CommitmentTuple, Vec<u8>, Vec<u8>);
type SignedTuple = (CommitmentTuple, Vec<Option<Vec<u8>>>);

fn commitment_of(t: CommitmentTuple) -> Commitment {
    Commitment {
        payload: Payload {
            entries: t.0.into_iter().map(|(id, data)| PayloadEntry { id, data }).collect(),
        },
        block_number: t.1,
        validator_set_id: t.2,
    }
}

fn vote_of(t: VoteTuple) -> VoteMessage {
    VoteMessage {
        commitment: commitment_of(t.0),
        id: AuthorityId::new(t.1),
        signature: Signature::new(t.2),
    }
}

fn signed_of(t: SignedTuple) -> SignedCommitment {
    SignedCommitment {
        commitment: commitment_of(t.0),
        signatures: t.1.into_iter().map(|o| o.map(Signature::new)).collect(),
    }
}

fn codec_commitment(bytes: &[u8]) -> Option<Commitment> {
    CommitmentTuple::decode(&mut &bytes[..]).ok().map(commitment_of)
}

fn codec_vote(bytes: &[u8]) -> Option<VoteMessage> {
    VoteTuple::decode(&mut &bytes[..]).ok().map(vote_of)
}

fn codec_signed(bytes: &[u8]) -> Option<SignedCommitment> {
    SignedTuple::decode(&mut &bytes[..]).ok().map(signed_of)
}

/// A step of a linear congruential generator.
fn next(state: &mut u64) -> u64 {
    *state = state.wrapping_mul(6364136223846793005).wrapping_add(1442695040888963407);
    *state >> 33
}

#[test]
fn length_prefixes_read_as_the_codec_reads_them() {
    // an empty payload, block 0, set 0: then the voter's key as a byte string
    let head = vec![0u8; 13];
    let mut prefixes: Vec<Vec<u8>> = Vec::new();
    for first in 0..=255u8 {
        prefixes.push(vec![first]);
        for second in [0u8, 1, 2, 0x3f, 0x40, 0x41, 0x7f, 0x80, 0xff] {
            prefixes.push(vec![first, second]);
            for third in [0u8, 1, 0xff] {
                prefixes.push(vec![first, second, third, 0]);
                prefixes.push(vec![first, second, 0, third, 0]);
            }
        }
    }
    let mut some = 0;
    for prefix in prefixes {
        for tail in [0usize, 1, 70, 20_000] {
            let mut bytes = head.clone();
            bytes.extend_from_slice(&prefix);
            bytes.extend(std::iter::repeat(0u8).take(tail));
            let ours = decode_vote(&bytes);
            assert_eq!(ours, codec_vote(&bytes), "prefix {:?}, {} bytes behind it", prefix, tail);
            if ours.is_some() {
                some += 1;
            }
        }
    }
    assert!(some > 100);
}

#[test]
fn mutated_votes_read_as_the_codec_reads_them() {
    let vote = vote_of((
        (vec![([b'm', b'h'], vec![7; 40]), ([b'x', b'y'], vec![])], 77, 99),
        vec![2; 33],
        vec![9; 65],
    ));
    let encoded = encode_vote(&vote).unwrap();
    assert_eq!(codec_vote(&encoded), Some(vote));
    let mut state = 1u64;
    let mut some = 0;
    for _ in 0..4000 {
        let mut bytes = encoded.clone();
        for _ in 0..1 + next(&mut state) % 3 {
            let at = next(&mut state) as usize % bytes.len();
            bytes[at] = next(&mut state) as u8;
        }
        bytes.truncate(1 + next(&mut state) as usize % (bytes.len() + 8));
        let ours = decode_vote(&bytes);
        assert_eq!(ours, codec_vote(&bytes), "bytes {:?}", bytes);
        assert_eq!(decode_commitment(&bytes), codec_commitment(&bytes), "bytes {:?}", bytes);
        if ours.is_some() {
            some += 1;
        }
    }
    assert!(some > 10);
}

#[test]
fn mutated_signed_commitments_read_as_the_codec_reads_them() {
    let signed = signed_of((
        (vec![([b'm', b'h'], vec![7; 32])], 1, 2),
        vec![Some(vec![1; 65]), None, None, Some(vec![4; 65]), Some(vec![])],
    ));
    let encoded = encode_signed_commitment(&signed).unwrap();
    assert_eq!(codec_signed(&encoded), Some(signed));
    let mut state = 2u64;
    let mut some = 0;
    for _ in 0..4000 {
        let mut bytes = encoded.clone();
        for _ in 0..1 + next(&mut state) % 3 {
            let at = next(&mut state) as usize % bytes.len();
            bytes[at] = next(&mut state) as u8;
        }
        bytes.truncate(1 + next(&mut state) as usize % (bytes.len() + 8));
        let ours = decode_signed_commitment(&bytes);
        assert_eq!(ours, codec_signed(&bytes), "bytes {:?}", bytes);
        if ours.is_some() {
            some += 1;
        }
    }
    assert!(some > 10);
}

#[test]
fn votes_are_written_as_the_codec_writes_them() {
    let mut state = 3u64;
    for _ in 0..300 {
        let entries = (0..next(&mut state) % 4)
            .map(|_| {
                let len = match next(&mut state) % 4 {
                    0 => next(&mut state) % 64,
                    1 => 60 + next(&mut state) % 10,
                    2 => 16380 + next(&mut state) % 10,
                    _ => next(&mut state) % 300,
                };
                let id = [next(&mut state) as u8, next(&mut state) as u8];
                (id, (0..len).map(|_| next(&mut state) as u8).collect::<Vec<u8>>())
            })
            .collect::<Vec<_>>();
        let number = (next(&mut state) << 3) as u32;
        let set = next(&mut state) << 31 | next(&mut state);
        let id = (0..next(&mut state) % 70).map(|_| next(&mut state) as u8).collect::<Vec<u8>>();
        let sig = (0..next(&mut state) % 70).map(|_| next(&mut state) as u8).collect::<Vec<u8>>();
        let tuple: VoteTuple = ((entries, number, set), id, sig);
        let encoded = encode_vote(&vote_of(tuple.clone())).unwrap();
        assert_eq!(encoded, tuple.encode());
        assert_eq!(decode_vote(&encoded), Some(vote_of(tuple)));
    }
}
