use vstd::assert_seqs_equal;
use vstd::bytes::{
    lemma_auto_spec_u32_to_from_le_bytes, lemma_auto_spec_u64_to_from_le_bytes,
    spec_u32_to_le_bytes, spec_u64_to_le_bytes, spec_u32_from_le_bytes, spec_u64_from_le_bytes,
    spec_u64_to_le_bytes_to_open, u32_from_le_bytes, u32_to_le_bytes, u64_from_le_bytes,
    u64_to_le_bytes,
};
use vstd::prelude::*;
use vstd::slice::{slice_subrange, slice_to_vec};

use crate::records::{
    Candidate, CandidateView, Poll, PollView, MAX_DESCRIPTION_BYTES, MAX_NAME_BYTES,
};

verus! {

// Persisted record layout.
//
// Poll record:      {8-byte tag}{8-byte poll_id}{8-byte poll_start}
//                   {8-byte poll_end}{8-byte candidate_amount}
//                   {4-byte length}{description, at most 200 bytes}
// Candidate record: {8-byte tag}{8-byte poll_id}{8-byte candidate_votes}
//                   {4-byte length}{candidate_name, at most 32 bytes}
//
// Every record begins with the tag and then `poll_id`; for a candidate
// record the bytes at offsets 16..24 are exactly `candidate_votes`. The
// bulk reset in poll deletion depends on this fixed prefix.

/// Type tag opening every poll record.
pub const POLL_TAG: u64 = 0x6c6c6f70;

/// Type tag opening every candidate record.
pub const CANDIDATE_TAG: u64 = 0x646e6163;

/// Bytes before the description in a poll record.
pub const POLL_HEADER_BYTES: usize = 44;

/// Bytes before the name in a candidate record.
pub const CANDIDATE_HEADER_BYTES: usize = 28;

/// First byte of the 8-byte field at offset 16: `candidate_votes` in a
/// candidate record, `poll_start` in a poll record.
pub const RESET_LO: usize = 16;

/// One past the last byte of the field at offset 16.
pub const RESET_HI: usize = 24;

/// The bytes of a poll record holding `p`.
pub open spec fn spec_encode_poll(p: PollView) -> Seq<u8> {
    spec_u64_to_le_bytes(POLL_TAG) + spec_u64_to_le_bytes(p.poll_id) + spec_u64_to_le_bytes(
        p.poll_start,
    ) + spec_u64_to_le_bytes(p.poll_end) + spec_u64_to_le_bytes(p.candidate_amount)
        + spec_u32_to_le_bytes(p.description.len() as u32) + p.description
}

/// The bytes of a candidate record holding `c`.
pub open spec fn spec_encode_candidate(c: CandidateView) -> Seq<u8> {
    spec_u64_to_le_bytes(CANDIDATE_TAG) + spec_u64_to_le_bytes(c.poll_id) + spec_u64_to_le_bytes(
        c.candidate_votes,
    ) + spec_u32_to_le_bytes(c.candidate_name.len() as u32) + c.candidate_name
}

/// The poll record stored in `d`, if `d` is a well-formed poll record.
pub open spec fn spec_decode_poll(d: Seq<u8>) -> Option<PollView> {
    if d.len() < POLL_HEADER_BYTES {
        None
    } else {
        let tag = spec_u64_from_le_bytes(d.subrange(0, 8));
        let dlen = spec_u32_from_le_bytes(d.subrange(40, 44));
        if tag == POLL_TAG && dlen <= MAX_DESCRIPTION_BYTES && d.len() == POLL_HEADER_BYTES + dlen {
            Some(
                PollView {
                    poll_id: spec_u64_from_le_bytes(d.subrange(8, 16)),
                    poll_start: spec_u64_from_le_bytes(d.subrange(16, 24)),
                    poll_end: spec_u64_from_le_bytes(d.subrange(24, 32)),
                    candidate_amount: spec_u64_from_le_bytes(d.subrange(32, 40)),
                    description: d.subrange(POLL_HEADER_BYTES as int, d.len() as int),
                },
            )
        } else {
            None
        }
    }
}

/// The candidate record stored in `d`, if `d` is a well-formed candidate
/// record.
pub open spec fn spec_decode_candidate(d: Seq<u8>) -> Option<CandidateView> {
    if d.len() < CANDIDATE_HEADER_BYTES {
        None
    } else {
        let tag = spec_u64_from_le_bytes(d.subrange(0, 8));
        let nlen = spec_u32_from_le_bytes(d.subrange(24, 28));
        if tag == CANDIDATE_TAG && nlen <= MAX_NAME_BYTES && d.len() == CANDIDATE_HEADER_BYTES
            + nlen {
            Some(
                CandidateView {
                    poll_id: spec_u64_from_le_bytes(d.subrange(8, 16)),
                    candidate_votes: spec_u64_from_le_bytes(d.subrange(16, 24)),
                    candidate_name: d.subrange(CANDIDATE_HEADER_BYTES as int, d.len() as int),
                },
            )
        } else {
            None
        }
    }
}

/// `d` with the bytes at offsets 16..24 overwritten with zero and
/// everything else untouched.
pub open spec fn spec_zero_votes_bytes(d: Seq<u8>) -> Seq<u8> {
    Seq::new(
        d.len(),
        |i: int|
            if RESET_LO <= i < RESET_HI {
                0u8
            } else {
                d[i]
            },
    )
}

/// Serialize a poll record.
pub fn encode_poll(p: &Poll) -> (r: Vec<u8>)
    requires
        p@.valid(),
    ensures
        r@ == spec_encode_poll(p@),
{
    let mut out: Vec<u8> = Vec::new();
    let mut piece = u64_to_le_bytes(POLL_TAG);
    out.append(&mut piece);
    let mut piece = u64_to_le_bytes(p.poll_id);
    out.append(&mut piece);
    let mut piece = u64_to_le_bytes(p.poll_start);
    out.append(&mut piece);
    let mut piece = u64_to_le_bytes(p.poll_end);
    out.append(&mut piece);
    let mut piece = u64_to_le_bytes(p.candidate_amount);
    out.append(&mut piece);
    let mut piece = u32_to_le_bytes(p.description.len() as u32);
    out.append(&mut piece);
    out.extend_from_slice(p.description.as_slice());
    proof {
        lemma_auto_spec_u64_to_from_le_bytes();
        lemma_auto_spec_u32_to_from_le_bytes();
        assert(out@ =~= spec_encode_poll(p@));
    }
    out
}

/// Serialize a candidate record.
pub fn encode_candidate(c: &Candidate) -> (r: Vec<u8>)
    requires
        c@.valid(),
    ensures
        r@ == spec_encode_candidate(c@),
{
    let mut out: Vec<u8> = Vec::new();
    let mut piece = u64_to_le_bytes(CANDIDATE_TAG);
    out.append(&mut piece);
    let mut piece = u64_to_le_bytes(c.poll_id);
    out.append(&mut piece);
    let mut piece = u64_to_le_bytes(c.candidate_votes);
    out.append(&mut piece);
    let mut piece = u32_to_le_bytes(c.candidate_name.len() as u32);
    out.append(&mut piece);
    out.extend_from_slice(c.candidate_name.as_slice());
    proof {
        lemma_auto_spec_u64_to_from_le_bytes();
        lemma_auto_spec_u32_to_from_le_bytes();
        assert(out@ =~= spec_encode_candidate(c@));
    }
    out
}

/// Deserialize a poll record.
pub fn decode_poll(data: &Vec<u8>) -> (r: Option<Poll>)
    ensures
        r is Some <==> spec_decode_poll(data@) is Some,
        r matches Some(p) ==> spec_decode_poll(data@) == Some(p@),
{
    if data.len() < POLL_HEADER_BYTES {
        return None;
    }
    let s = data.as_slice();
    let tag = u64_from_le_bytes(slice_subrange(s, 0, 8));
    let poll_id = u64_from_le_bytes(slice_subrange(s, 8, 16));
    let poll_start = u64_from_le_bytes(slice_subrange(s, 16, 24));
    let poll_end = u64_from_le_bytes(slice_subrange(s, 24, 32));
    let candidate_amount = u64_from_le_bytes(slice_subrange(s, 32, 40));
    let dlen32 = u32_from_le_bytes(slice_subrange(s, 40, 44));
    let dlen = dlen32 as usize;
    if tag != POLL_TAG || dlen > MAX_DESCRIPTION_BYTES || data.len() - POLL_HEADER_BYTES != dlen {
        return None;
    }
    let description = slice_to_vec(slice_subrange(s, POLL_HEADER_BYTES, data.len()));
    Some(Poll { poll_id, description, poll_start, poll_end, candidate_amount })
}

/// Deserialize a candidate record.
pub fn decode_candidate(data: &Vec<u8>) -> (r: Option<Candidate>)
    ensures
        r is Some <==> spec_decode_candidate(data@) is Some,
        r matches Some(c) ==> spec_decode_candidate(data@) == Some(c@),
{
    if data.len() < CANDIDATE_HEADER_BYTES {
        return None;
    }
    let s = data.as_slice();
    let tag = u64_from_le_bytes(slice_subrange(s, 0, 8));
    let poll_id = u64_from_le_bytes(slice_subrange(s, 8, 16));
    let candidate_votes = u64_from_le_bytes(slice_subrange(s, 16, 24));
    let nlen32 = u32_from_le_bytes(slice_subrange(s, 24, 28));
    let nlen = nlen32 as usize;
    if tag != CANDIDATE_TAG || nlen > MAX_NAME_BYTES || data.len() - CANDIDATE_HEADER_BYTES != nlen
    {
        return None;
    }
    let candidate_name = slice_to_vec(slice_subrange(s, CANDIDATE_HEADER_BYTES, data.len()));
    Some(Candidate { poll_id, candidate_votes, candidate_name })
}

/// Overwrite the bytes at offsets 16..24 with zero, in place.
pub fn zero_votes_bytes(data: &mut Vec<u8>)
    requires
        old(data)@.len() >= RESET_HI,
    ensures
        final(data)@ == spec_zero_votes_bytes(old(data)@),
{
    let mut i: usize = RESET_LO;
    while i < RESET_HI
        invariant
            RESET_LO <= i <= RESET_HI,
            data@.len() == old(data)@.len(),
            old(data)@.len() >= RESET_HI,
            forall|j: int|
                0 <= j < data@.len() ==> data@[j] == (if RESET_LO <= j < i {
                    0u8
                } else {
                    old(data)@[j]
                }),
        decreases RESET_HI - i,
    {
        data[i] = 0;
        i += 1;
    }
    proof {
        assert(data@ =~= spec_zero_votes_bytes(old(data)@));
    }
}

/// Decoding inverts encoding: a valid poll record comes back unchanged.
pub proof fn lemma_poll_round_trip(p: PollView)
    requires
        p.valid(),
    ensures
        spec_decode_poll(spec_encode_poll(p)) == Some(p),
{
    lemma_auto_spec_u64_to_from_le_bytes();
    lemma_auto_spec_u32_to_from_le_bytes();
    let e = spec_encode_poll(p);
    assert(e.len() == POLL_HEADER_BYTES + p.description.len());
    assert_seqs_equal!(e.subrange(0, 8) == spec_u64_to_le_bytes(POLL_TAG));
    assert_seqs_equal!(e.subrange(8, 16) == spec_u64_to_le_bytes(p.poll_id));
    assert_seqs_equal!(e.subrange(16, 24) == spec_u64_to_le_bytes(p.poll_start));
    assert_seqs_equal!(e.subrange(24, 32) == spec_u64_to_le_bytes(p.poll_end));
    assert_seqs_equal!(e.subrange(32, 40) == spec_u64_to_le_bytes(p.candidate_amount));
    assert_seqs_equal!(e.subrange(40, 44) == spec_u32_to_le_bytes(p.description.len() as u32));
    assert_seqs_equal!(e.subrange(POLL_HEADER_BYTES as int, e.len() as int) == p.description);
    assert(spec_u32_from_le_bytes(e.subrange(40, 44)) == p.description.len());
    assert(spec_decode_poll(e) == Some(p));
}

/// Decoding inverts encoding: a valid candidate record comes back unchanged.
pub proof fn lemma_candidate_round_trip(c: CandidateView)
    requires
        c.valid(),
    ensures
        spec_decode_candidate(spec_encode_candidate(c)) == Some(c),
{
    lemma_auto_spec_u64_to_from_le_bytes();
    lemma_auto_spec_u32_to_from_le_bytes();
    let e = spec_encode_candidate(c);
    assert(e.len() == CANDIDATE_HEADER_BYTES + c.candidate_name.len());
    assert_seqs_equal!(e.subrange(0, 8) == spec_u64_to_le_bytes(CANDIDATE_TAG));
    assert_seqs_equal!(e.subrange(8, 16) == spec_u64_to_le_bytes(c.poll_id));
    assert_seqs_equal!(e.subrange(16, 24) == spec_u64_to_le_bytes(c.candidate_votes));
    assert_seqs_equal!(e.subrange(24, 28) == spec_u32_to_le_bytes(c.candidate_name.len() as u32));
    assert_seqs_equal!(e.subrange(CANDIDATE_HEADER_BYTES as int, e.len() as int)
        == c.candidate_name);
    assert(spec_u32_from_le_bytes(e.subrange(24, 28)) == c.candidate_name.len());
    assert(spec_decode_candidate(e) == Some(c));
}

/// Encoding inverts decoding: a byte string that decodes as a poll record
/// is exactly the encoding of what it decodes to.
pub proof fn lemma_poll_encode_of_decode(d: Seq<u8>)
    requires
        spec_decode_poll(d) is Some,
    ensures
        spec_decode_poll(d) matches Some(p) && spec_encode_poll(p) == d && p.valid(),
{
    lemma_auto_spec_u64_to_from_le_bytes();
    lemma_auto_spec_u32_to_from_le_bytes();
    let p = spec_decode_poll(d)->Some_0;
    let e = spec_encode_poll(p);
    assert(spec_u64_to_le_bytes(spec_u64_from_le_bytes(d.subrange(0, 8))) == d.subrange(0, 8));
    assert(spec_u64_to_le_bytes(spec_u64_from_le_bytes(d.subrange(8, 16))) == d.subrange(8, 16));
    assert(spec_u64_to_le_bytes(spec_u64_from_le_bytes(d.subrange(16, 24))) == d.subrange(16, 24));
    assert(spec_u64_to_le_bytes(spec_u64_from_le_bytes(d.subrange(24, 32))) == d.subrange(24, 32));
    assert(spec_u64_to_le_bytes(spec_u64_from_le_bytes(d.subrange(32, 40))) == d.subrange(32, 40));
    assert(p.description.len() as u32 == spec_u32_from_le_bytes(d.subrange(40, 44)));
    assert(spec_u32_to_le_bytes(spec_u32_from_le_bytes(d.subrange(40, 44))) == d.subrange(40, 44));
    assert_seqs_equal!(e == d);
}

/// Encoding inverts decoding, for candidate records.
pub proof fn lemma_candidate_encode_of_decode(d: Seq<u8>)
    requires
        spec_decode_candidate(d) is Some,
    ensures
        spec_decode_candidate(d) matches Some(c) && spec_encode_candidate(c) == d && c.valid(),
{
    lemma_auto_spec_u64_to_from_le_bytes();
    lemma_auto_spec_u32_to_from_le_bytes();
    let c = spec_decode_candidate(d)->Some_0;
    let e = spec_encode_candidate(c);
    assert(spec_u64_to_le_bytes(spec_u64_from_le_bytes(d.subrange(0, 8))) == d.subrange(0, 8));
    assert(spec_u64_to_le_bytes(spec_u64_from_le_bytes(d.subrange(8, 16))) == d.subrange(8, 16));
    assert(spec_u64_to_le_bytes(spec_u64_from_le_bytes(d.subrange(16, 24))) == d.subrange(16, 24));
    assert(c.candidate_name.len() as u32 == spec_u32_from_le_bytes(d.subrange(24, 28)));
    assert(spec_u32_to_le_bytes(spec_u32_from_le_bytes(d.subrange(24, 28))) == d.subrange(24, 28));
    assert_seqs_equal!(e == d);
}

/// The little-endian bytes of zero are all zero.
proof fn lemma_zero_le_bytes()
    ensures
        forall|i: int| 0 <= i < 8 ==> spec_u64_to_le_bytes(0u64)[i] == 0u8,
{
    lemma_auto_spec_u64_to_from_le_bytes();
    spec_u64_to_le_bytes_to_open(0u64);
    assert((0u64 & 0xff) == 0 && ((0u64 >> 8) & 0xff) == 0 && ((0u64 >> 16) & 0xff) == 0 && ((0u64
        >> 24) & 0xff) == 0 && ((0u64 >> 32) & 0xff) == 0 && ((0u64 >> 40) & 0xff) == 0 && ((0u64
        >> 48) & 0xff) == 0 && ((0u64 >> 56) & 0xff) == 0) by (bit_vector);
}

/// Zeroing the bytes at offsets 16..24 of an encoded candidate record is
/// exactly encoding the same candidate with `candidate_votes = 0`; the tag,
/// `poll_id` and `candidate_name` bytes are untouched.
pub proof fn lemma_zero_votes_encoded_candidate(c: CandidateView)
    requires
        c.valid(),
    ensures
        spec_zero_votes_bytes(spec_encode_candidate(c)) == spec_encode_candidate(
            CandidateView { candidate_votes: 0, ..c },
        ),
{
    lemma_auto_spec_u64_to_from_le_bytes();
    lemma_auto_spec_u32_to_from_le_bytes();
    lemma_zero_le_bytes();
    let c0 = CandidateView { candidate_votes: 0, ..c };
    let a = spec_zero_votes_bytes(spec_encode_candidate(c));
    let b = spec_encode_candidate(c0);
    assert_seqs_equal!(a == b);
}

/// Zeroing the bytes at offsets 16..24 of an encoded poll record is exactly
/// encoding the same poll with `poll_start = 0`: the field at that offset in
/// a poll record is `poll_start`.
pub proof fn lemma_zero_votes_encoded_poll(p: PollView)
    requires
        p.valid(),
    ensures
        spec_zero_votes_bytes(spec_encode_poll(p)) == spec_encode_poll(
            PollView { poll_start: 0, ..p },
        ),
{
    lemma_auto_spec_u64_to_from_le_bytes();
    lemma_auto_spec_u32_to_from_le_bytes();
    lemma_zero_le_bytes();
    let p0 = PollView { poll_start: 0, ..p };
    let a = spec_zero_votes_bytes(spec_encode_poll(p));
    let b = spec_encode_poll(p0);
    assert_seqs_equal!(a == b);
}

} // verus!
