use simple_voting_app::address::{derive_candidate_address, derive_poll_address};
use simple_voting_app::codec::{
    decode_candidate, decode_poll, encode_candidate, encode_poll, zero_votes_bytes,
};
use simple_voting_app::records::{Candidate, Poll};

#[test]
fn poll_layout_round_trips() {
    let p = Poll {
        poll_id: 0xDEAD_BEEF_0123,
        description: b"Favorite color".to_vec(),
        poll_start: 7,
        poll_end: 0xFFFF_FFFF_FFFF_FFFF,
        candidate_amount: 3,
    };
    let bytes = encode_poll(&p);
    // tag 8 + poll_id 8 + start 8 + end 8 + amount 8 + length 4 + text
    assert_eq!(bytes.len(), 44 + 14);
    // little-endian poll_id right after the tag
    assert_eq!(&bytes[8..16], &0xDEAD_BEEF_0123u64.to_le_bytes());
    // poll_start occupies the reset window of a poll record
    assert_eq!(&bytes[16..24], &7u64.to_le_bytes());
    assert_eq!(&bytes[40..44], &14u32.to_le_bytes());
    assert_eq!(&bytes[44..], b"Favorite color");
    assert_eq!(decode_poll(&bytes), Some(p));
}

#[test]
fn candidate_layout_round_trips() {
    let c = Candidate { poll_id: 1, candidate_votes: 2, candidate_name: b"Red".to_vec() };
    let bytes = encode_candidate(&c);
    assert_eq!(bytes.len(), 28 + 3);
    assert_eq!(&bytes[8..16], &1u64.to_le_bytes());
    // candidate_votes sits at offsets 16..24
    assert_eq!(&bytes[16..24], &2u64.to_le_bytes());
    assert_eq!(&bytes[24..28], &3u32.to_le_bytes());
    assert_eq!(&bytes[28..], b"Red");
    assert_eq!(decode_candidate(&bytes), Some(c));
}

#[test]
fn decode_rejects_malformed_records() {
    let c = Candidate { poll_id: 1, candidate_votes: 2, candidate_name: b"Red".to_vec() };
    let good = encode_candidate(&c);
    // too short
    assert_eq!(decode_candidate(&good[..20].to_vec()), None);
    // wrong tag
    let mut wrong_tag = good.clone();
    wrong_tag[0] ^= 0xFF;
    assert_eq!(decode_candidate(&wrong_tag), None);
    // length prefix disagrees with the payload
    let mut wrong_len = good.clone();
    wrong_len[24] += 1;
    assert_eq!(decode_candidate(&wrong_len), None);
    // a poll record is not a candidate record, and the other way round
    let p = Poll {
        poll_id: 1,
        description: b"d".to_vec(),
        poll_start: 0,
        poll_end: 0,
        candidate_amount: 0,
    };
    assert_eq!(decode_candidate(&encode_poll(&p)), None);
    assert_eq!(decode_poll(&good), None);
}

#[test]
fn zeroing_votes_keeps_the_rest() {
    let c = Candidate { poll_id: 6, candidate_votes: 41, candidate_name: b"Quokka".to_vec() };
    let mut bytes = encode_candidate(&c);
    zero_votes_bytes(&mut bytes);
    let reset = decode_candidate(&bytes).unwrap();
    assert_eq!(reset.candidate_votes, 0);
    assert_eq!(reset.poll_id, 6);
    assert_eq!(reset.candidate_name, b"Quokka".to_vec());
    assert_eq!(
        bytes,
        encode_candidate(&Candidate {
            poll_id: 6,
            candidate_votes: 0,
            candidate_name: b"Quokka".to_vec()
        })
    );
}

#[test]
fn derived_addresses_are_deterministic() {
    let pid = [3u8; 32];
    let a1 = derive_poll_address(&pid, 1).unwrap();
    let a2 = derive_poll_address(&pid, 1).unwrap();
    assert_eq!(a1, a2);
    let c1 = derive_candidate_address(&pid, &b"Red".to_vec(), 1).unwrap();
    let c2 = derive_candidate_address(&pid, &b"Red".to_vec(), 1).unwrap();
    assert_eq!(c1, c2);
}

#[test]
fn derived_addresses_depend_on_the_key() {
    let pid = [3u8; 32];
    let a1 = derive_poll_address(&pid, 1).unwrap();
    let a2 = derive_poll_address(&pid, 2).unwrap();
    assert_ne!(a1, a2);
    let c1 = derive_candidate_address(&pid, &b"Red".to_vec(), 1).unwrap();
    let c2 = derive_candidate_address(&pid, &b"Blue".to_vec(), 1).unwrap();
    assert_ne!(c1, c2);
    // the poll and its candidates live at different addresses
    assert_ne!(a1, c1);
    // and another program's namespace yields other addresses
    let other = [4u8; 32];
    assert_ne!(derive_poll_address(&other, 1).unwrap(), a1);
}
