use vstd::prelude::*;

use crate::codec::{
    lemma_candidate_encode_of_decode, lemma_candidate_round_trip, lemma_poll_encode_of_decode,
    lemma_poll_round_trip, lemma_zero_votes_encoded_candidate, spec_zero_votes_bytes,
};
use crate::errors::CustomError;
use crate::program::{
    lemma_count_push, lemma_count_update, lemma_key_index_is, spec_delete_poll, spec_reset_pass,
    spec_initialize_candidate, spec_initialize_poll, spec_vote, AccountKeyView, VotingAppView,
};
use crate::records::{CandidateView, PollView, MAX_NAME_BYTES};

verus! {

// The laws of the instruction semantics, stated over the same spec
// functions the operations' contracts use.

/// Creating a poll and immediately creating another with the same
/// `poll_id` fails with AddressCollision, whatever the other arguments,
/// and leaves the ledger unchanged.
pub proof fn lemma_poll_recreation_collides(
    s: VotingAppView,
    poll_id: u64,
    d1: Seq<u8>,
    st1: u64,
    en1: u64,
    d2: Seq<u8>,
    st2: u64,
    en2: u64,
)
    requires
        spec_initialize_poll(s, poll_id, d1, st1, en1).1 is Ok,
    ensures
        spec_initialize_poll(
            spec_initialize_poll(s, poll_id, d1, st1, en1).0,
            poll_id,
            d2,
            st2,
            en2,
        ) == (
            spec_initialize_poll(s, poll_id, d1, st1, en1).0,
            Err::<(), CustomError>(CustomError::AddressCollision),
        ),
{
    let s1 = spec_initialize_poll(s, poll_id, d1, st1, en1).0;
    assert(s1.accounts[s1.accounts.len() - 1].key == AccountKeyView::PollRecord(poll_id));
    assert(s1.has_key(AccountKeyView::PollRecord(poll_id)));
}

/// One successful registration: the poll's counter grows by exactly one,
/// the new candidate record starts at zero votes, and the set of occupied
/// addresses grows by exactly the new candidate's.
pub proof fn lemma_initialize_candidate_step(s: VotingAppView, name: Seq<u8>, poll_id: u64)
    requires
        s.wf(),
        spec_initialize_candidate(s, name, poll_id).1 is Ok,
    ensures
        ({
            let s1 = spec_initialize_candidate(s, name, poll_id).0;
            &&& s1.wf()
            &&& s1.program_id == s.program_id
            &&& s1.poll_loaded(poll_id)
            &&& s1.poll_rec(poll_id) == (PollView {
                candidate_amount: (s.poll_rec(poll_id).candidate_amount + 1) as u64,
                ..s.poll_rec(poll_id)
            })
            &&& s1.candidate_loaded(name, poll_id)
            &&& s1.candidate_rec(name, poll_id) == (CandidateView {
                poll_id,
                candidate_votes: 0,
                candidate_name: name,
            })
            &&& forall|k: AccountKeyView|
                #[trigger] s1.has_key(k) <==> (s.has_key(k) || k
                    == AccountKeyView::CandidateRecord(name, poll_id))
        }),
{
    let s1 = spec_initialize_candidate(s, name, poll_id).0;
    let pk = AccountKeyView::PollRecord(poll_id);
    let ck = AccountKeyView::CandidateRecord(name, poll_id);
    let pi = s.key_index(pk);
    assert(s.has_key(pk));
    assert(0 <= pi < s.accounts.len() && s.accounts[pi].key == pk);
    assert(s.account_coherent(s.accounts[pi]));
    let p = s.poll_rec(poll_id);
    lemma_poll_encode_of_decode(s.accounts[pi].data);
    let p2 = PollView { candidate_amount: (p.candidate_amount + 1) as u64, ..p };
    let c = CandidateView { poll_id, candidate_votes: 0, candidate_name: name };
    assert(s1.accounts.len() == s.accounts.len() + 1);
    assert forall|a: int, b: int|
        #![trigger s1.accounts[a].key, s1.accounts[b].key]
        0 <= a < b < s1.accounts.len() implies s1.accounts[a].key != s1.accounts[b].key by {
        if b < s1.accounts.len() - 1 {
            assert(s1.accounts[a].key == s.accounts[a].key);
            assert(s1.accounts[b].key == s.accounts[b].key);
        } else {
            assert(s1.accounts[b].key == ck);
            assert(s1.accounts[a].key == s.accounts[a].key);
        }
    }
    lemma_key_index_is(s1, pk, pi);
    lemma_key_index_is(s1, ck, s1.accounts.len() - 1);
    lemma_poll_round_trip(p2);
    lemma_candidate_round_trip(c);
    lemma_count_update(s.accounts, pi, s1.accounts[pi]);
    lemma_count_push(s.accounts.update(pi, s1.accounts[pi]), s1.accounts.last());
    assert forall|i: int|
        0 <= i < s1.accounts.len() && (#[trigger] s1.accounts[i]).owner == s1.program_id
        implies s1.account_coherent(s1.accounts[i]) by {
        if i < s.accounts.len() && i != pi {
            assert(s.account_coherent(s.accounts[i]));
        }
    }
    assert(s1.wf());
    assert forall|k: AccountKeyView| #[trigger] s1.has_key(k) <==> (s.has_key(k) || k == ck) by {
        if s1.has_key(k) {
            let i = choose|i: int| 0 <= i < s1.accounts.len() && s1.accounts[i].key == k;
            if i < s.accounts.len() {
                assert(s.accounts[i].key == k);
                assert(s.has_key(k));
            }
        }
        if s.has_key(k) {
            let i = choose|i: int| 0 <= i < s.accounts.len() && s.accounts[i].key == k;
            assert(s1.accounts[i].key == k);
            assert(s1.has_key(k));
        }
        if k == ck {
            assert(s1.accounts[s1.accounts.len() - 1].key == k);
            assert(s1.has_key(k));
        }
    }
}

/// One successful vote: the candidate's vote counter grows by exactly one
/// and nothing else changes; in particular the poll record and the set of
/// occupied addresses stay as they were.
pub proof fn lemma_vote_step(s: VotingAppView, name: Seq<u8>, poll_id: u64)
    requires
        s.wf(),
        spec_vote(s, name, poll_id).1 is Ok,
    ensures
        ({
            let s1 = spec_vote(s, name, poll_id).0;
            &&& s1.wf()
            &&& s1.program_id == s.program_id
            &&& s1.poll_loaded(poll_id)
            &&& s1.poll_rec(poll_id) == s.poll_rec(poll_id)
            &&& s1.candidate_loaded(name, poll_id)
            &&& s1.candidate_rec(name, poll_id) == (CandidateView {
                candidate_votes: (s.candidate_rec(name, poll_id).candidate_votes + 1) as u64,
                ..s.candidate_rec(name, poll_id)
            })
            &&& forall|k: AccountKeyView| #[trigger] s1.has_key(k) <==> s.has_key(k)
        }),
{
    let s1 = spec_vote(s, name, poll_id).0;
    let pk = AccountKeyView::PollRecord(poll_id);
    let ck = AccountKeyView::CandidateRecord(name, poll_id);
    let pi = s.key_index(pk);
    let ci = s.key_index(ck);
    assert(s.has_key(pk));
    assert(s.has_key(ck));
    assert(0 <= pi < s.accounts.len() && s.accounts[pi].key == pk);
    assert(0 <= ci < s.accounts.len() && s.accounts[ci].key == ck);
    assert(pi != ci);
    assert(s.account_coherent(s.accounts[ci]));
    lemma_candidate_encode_of_decode(s.accounts[ci].data);
    let c = s.candidate_rec(name, poll_id);
    let c2 = CandidateView { candidate_votes: (c.candidate_votes + 1) as u64, ..c };
    assert(s1.accounts.len() == s.accounts.len());
    assert forall|a: int, b: int|
        #![trigger s1.accounts[a].key, s1.accounts[b].key]
        0 <= a < b < s1.accounts.len() implies s1.accounts[a].key != s1.accounts[b].key by {
        assert(s1.accounts[a].key == s.accounts[a].key);
        assert(s1.accounts[b].key == s.accounts[b].key);
    }
    lemma_key_index_is(s1, pk, pi);
    lemma_key_index_is(s1, ck, ci);
    lemma_candidate_round_trip(c2);
    lemma_count_update(s.accounts, ci, s1.accounts[ci]);
    assert forall|i: int|
        0 <= i < s1.accounts.len() && (#[trigger] s1.accounts[i]).owner == s1.program_id
        implies s1.account_coherent(s1.accounts[i]) by {
        if i != ci {
            assert(s1.accounts[i] == s.accounts[i]);
            assert(s.account_coherent(s.accounts[i]));
        }
    }
    assert(s1.wf());
    assert forall|k: AccountKeyView| #[trigger] s1.has_key(k) <==> s.has_key(k) by {
        if s1.has_key(k) {
            let i = choose|i: int| 0 <= i < s1.accounts.len() && s1.accounts[i].key == k;
            assert(s.accounts[i].key == k);
            assert(s.has_key(k));
        }
        if s.has_key(k) {
            let i = choose|i: int| 0 <= i < s.accounts.len() && s.accounts[i].key == k;
            assert(s1.accounts[i].key == k);
            assert(s1.has_key(k));
        }
    }
}

/// The ledger after registering `names`, in order, under `poll_id`.
pub open spec fn apply_initialize_candidates(
    s: VotingAppView,
    names: Seq<Seq<u8>>,
    poll_id: u64,
) -> VotingAppView
    decreases names.len(),
{
    if names.len() == 0 {
        s
    } else {
        spec_initialize_candidate(
            apply_initialize_candidates(s, names.drop_last(), poll_id),
            names.last(),
            poll_id,
        ).0
    }
}

/// `candidate_amount` counts registrations: starting from a ledger in
/// which the poll exists, registering N distinct fresh names in order
/// succeeds at every step and leaves the poll's counter exactly N higher.
pub proof fn lemma_candidate_amount_counts_registrations(
    s: VotingAppView,
    names: Seq<Seq<u8>>,
    poll_id: u64,
)
    requires
        s.wf(),
        s.poll_loaded(poll_id),
        s.poll_rec(poll_id).candidate_amount + names.len() <= u64::MAX,
        forall|a: int, b: int| 0 <= a < b < names.len() ==> names[a] != names[b],
        forall|a: int| 0 <= a < names.len() ==> (#[trigger] names[a]).len() <= MAX_NAME_BYTES,
        forall|a: int|
            0 <= a < names.len() ==> !s.has_key(
                AccountKeyView::CandidateRecord(#[trigger] names[a], poll_id),
            ),
    ensures
        ({
            let s1 = apply_initialize_candidates(s, names, poll_id);
            &&& s1.wf()
            &&& s1.poll_loaded(poll_id)
            &&& s1.poll_rec(poll_id).candidate_amount == s.poll_rec(poll_id).candidate_amount
                + names.len()
            &&& forall|k: AccountKeyView|
                #[trigger] s1.has_key(k) <==> (s.has_key(k) || (exists|a: int|
                    0 <= a < names.len() && k == AccountKeyView::CandidateRecord(
                        names[a],
                        poll_id,
                    )))
            &&& forall|a: int|
                0 <= a < names.len() ==> spec_initialize_candidate(
                    apply_initialize_candidates(s, #[trigger] names.take(a), poll_id),
                    names[a],
                    poll_id,
                ).1 is Ok
        }),
    decreases names.len(),
{
    if names.len() > 0 {
        let prev = names.drop_last();
        let last = names.last();
        assert(forall|a: int| 0 <= a < prev.len() ==> prev[a] == names[a]);
        lemma_candidate_amount_counts_registrations(s, prev, poll_id);
        let sp = apply_initialize_candidates(s, prev, poll_id);
        let lk = AccountKeyView::CandidateRecord(last, poll_id);
        assert(!s.has_key(lk));
        assert(!sp.has_key(lk)) by {
            if sp.has_key(lk) {
                let a = choose|a: int|
                    0 <= a < prev.len() && lk == AccountKeyView::CandidateRecord(
                        prev[a],
                        poll_id,
                    );
                assert(names[a] == last);
            }
        };
        assert(last.len() <= MAX_NAME_BYTES);
        assert(spec_initialize_candidate(sp, last, poll_id).1 is Ok);
        lemma_initialize_candidate_step(sp, last, poll_id);
        let s1 = apply_initialize_candidates(s, names, poll_id);
        assert(s1 == spec_initialize_candidate(sp, last, poll_id).0);
        assert(s1.poll_rec(poll_id).candidate_amount == s.poll_rec(poll_id).candidate_amount
            + names.len());
        assert forall|k: AccountKeyView| #[trigger] s1.has_key(k) <==> (s.has_key(k) || (
        exists|a: int|
            0 <= a < names.len() && k == AccountKeyView::CandidateRecord(
                names[a],
                poll_id,
            ))) by {
            if s1.has_key(k) && !s.has_key(k) {
                if k == lk {
                    assert(k == AccountKeyView::CandidateRecord(names[names.len() - 1], poll_id));
                } else {
                    let a = choose|a: int|
                        0 <= a < prev.len() && k == AccountKeyView::CandidateRecord(
                            prev[a],
                            poll_id,
                        );
                    assert(k == AccountKeyView::CandidateRecord(names[a], poll_id));
                }
            }
            if !s.has_key(k) && (exists|a: int|
                0 <= a < names.len() && k == AccountKeyView::CandidateRecord(names[a], poll_id)) {
                let a = choose|a: int|
                    0 <= a < names.len() && k == AccountKeyView::CandidateRecord(
                        names[a],
                        poll_id,
                    );
                if a < prev.len() {
                    assert(k == AccountKeyView::CandidateRecord(prev[a], poll_id));
                    assert(sp.has_key(k));
                }
                assert(s1.has_key(k));
            }
        }
        assert forall|a: int| 0 <= a < names.len() implies spec_initialize_candidate(
            apply_initialize_candidates(s, #[trigger] names.take(a), poll_id),
            names[a],
            poll_id,
        ).1 is Ok by {
            if a < prev.len() {
                assert(spec_initialize_candidate(
                    apply_initialize_candidates(s, prev.take(a), poll_id),
                    prev[a],
                    poll_id,
                ).1 is Ok);
                assert(names.take(a) =~= prev.take(a));
            } else {
                assert(names.take(a) =~= prev);
            }
        }
    }
}

/// The ledger after `n` votes for one candidate.
pub open spec fn apply_votes(s: VotingAppView, name: Seq<u8>, poll_id: u64, n: nat) -> VotingAppView
    decreases n,
{
    if n == 0 {
        s
    } else {
        spec_vote(apply_votes(s, name, poll_id, (n - 1) as nat), name, poll_id).0
    }
}

/// Voting is not idempotent: K successful `vote` calls add exactly K to
/// `candidate_votes` — repeated calls strictly increase the counter, also
/// when the same signer casts them — and each call in the run succeeds.
pub proof fn lemma_votes_accumulate(s: VotingAppView, name: Seq<u8>, poll_id: u64, n: nat)
    requires
        s.wf(),
        s.poll_loaded(poll_id),
        s.candidate_loaded(name, poll_id),
        s.candidate_rec(name, poll_id).candidate_votes + n <= u64::MAX,
    ensures
        ({
            let s1 = apply_votes(s, name, poll_id, n);
            &&& s1.wf()
            &&& s1.poll_loaded(poll_id)
            &&& s1.candidate_loaded(name, poll_id)
            &&& s1.candidate_rec(name, poll_id) == (CandidateView {
                candidate_votes: (s.candidate_rec(name, poll_id).candidate_votes + n) as u64,
                ..s.candidate_rec(name, poll_id)
            })
            &&& forall|m: nat|
                m < n ==> (#[trigger] spec_vote(
                    apply_votes(s, name, poll_id, m),
                    name,
                    poll_id,
                )).1 is Ok
        }),
    decreases n,
{
    if n > 0 {
        lemma_votes_accumulate(s, name, poll_id, (n - 1) as nat);
        let sp = apply_votes(s, name, poll_id, (n - 1) as nat);
        assert(spec_vote(sp, name, poll_id).1 is Ok);
        lemma_vote_step(sp, name, poll_id);
        assert forall|m: nat| m < n implies (#[trigger] spec_vote(
            apply_votes(s, name, poll_id, m),
            name,
            poll_id,
        )).1 is Ok by {
            if m == (n - 1) as nat {
                assert(apply_votes(s, name, poll_id, m) == sp);
            }
        }
    }
}

/// `delete_poll` with a `poll_id` that does not match the stored
/// identifier of the poll record at the derived address fails with
/// PollIdMismatch and leaves every record unchanged.
pub proof fn lemma_delete_poll_mismatch_unchanged(s: VotingAppView, poll_id: u64, aux: Seq<usize>)
    requires
        s.poll_loaded(poll_id),
        s.poll_rec(poll_id).poll_id != poll_id,
    ensures
        spec_delete_poll(s, poll_id, aux) == (
            s,
            Err::<(), CustomError>(CustomError::PollIdMismatch),
        ),
{
}

/// A successful `delete_poll` removes the poll record; it zeroes
/// `candidate_votes` on every program-owned candidate record named by the
/// auxiliary list, leaving `candidate_name` and `poll_id` on those records
/// untouched; candidate records not named keep their value, and accounts
/// the program does not own are untouched wherever they are named.
pub proof fn lemma_delete_poll_resets_candidates(s: VotingAppView, poll_id: u64, aux: Seq<usize>)
    requires
        s.wf(),
        s.accounts.len() <= usize::MAX,
        spec_delete_poll(s, poll_id, aux).1 is Ok,
    ensures
        ({
            let s1 = spec_delete_poll(s, poll_id, aux).0;
            &&& s1.accounts.len() == s.accounts.len() - 1
            &&& !s1.has_key(AccountKeyView::PollRecord(poll_id))
            &&& forall|name: Seq<u8>, id2: u64|
                #[trigger] s.candidate_loaded(name, id2) ==> s1.candidate_loaded(name, id2)
            &&& forall|name: Seq<u8>, id2: u64|
                #[trigger] s.candidate_loaded(name, id2) && aux.contains(
                    s.key_index(AccountKeyView::CandidateRecord(name, id2)) as usize,
                ) ==> s1.candidate_rec(name, id2) == (CandidateView {
                    candidate_votes: 0,
                    ..s.candidate_rec(name, id2)
                })
            &&& forall|name: Seq<u8>, id2: u64|
                #[trigger] s.candidate_loaded(name, id2) && !aux.contains(
                    s.key_index(AccountKeyView::CandidateRecord(name, id2)) as usize,
                ) ==> s1.candidate_rec(name, id2) == s.candidate_rec(name, id2)
            &&& forall|k: AccountKeyView|
                s.has_key(k) && k != AccountKeyView::PollRecord(poll_id) && (
                #[trigger] s.account_at(k)).owner != s.program_id ==> s1.has_key(k)
                    && s1.account_at(k) == s.account_at(k)
        }),
{
    let s1 = spec_delete_poll(s, poll_id, aux).0;
    let pk = AccountKeyView::PollRecord(poll_id);
    let pi = s.key_index(pk);
    assert(s.has_key(pk));
    assert(0 <= pi < s.accounts.len() && s.accounts[pi].key == pk);
    let z = spec_reset_pass(s, aux);
    assert(s1.accounts == z.remove(pi));
    assert(z.len() == s.accounts.len());
    assert(forall|i: int|
        0 <= i < z.len() ==> (#[trigger] z[i]).key == s.accounts[i].key && z[i].owner
            == s.accounts[i].owner);
    assert forall|a: int, b: int|
        #![trigger s1.accounts[a].key, s1.accounts[b].key]
        0 <= a < b < s1.accounts.len() implies s1.accounts[a].key != s1.accounts[b].key by {
        let a0 = if a < pi {
            a
        } else {
            a + 1
        };
        let b0 = if b < pi {
            b
        } else {
            b + 1
        };
        assert(s1.accounts[a].key == s.accounts[a0].key);
        assert(s1.accounts[b].key == s.accounts[b0].key);
    }
    assert(!s1.has_key(pk)) by {
        if s1.has_key(pk) {
            let i = choose|i: int| 0 <= i < s1.accounts.len() && s1.accounts[i].key == pk;
            let i0 = if i < pi {
                i
            } else {
                i + 1
            };
            assert(s.accounts[i0].key == pk);
            if i0 < pi {
                assert(s.accounts[i0].key != s.accounts[pi].key);
            } else {
                assert(s.accounts[pi].key != s.accounts[i0].key);
            }
        }
    };
    assert forall|name: Seq<u8>, id2: u64| #[trigger] s.candidate_loaded(name, id2) implies {
        let ck = AccountKeyView::CandidateRecord(name, id2);
        let ci = s.key_index(ck);
        &&& s1.candidate_loaded(name, id2)
        &&& (aux.contains(ci as usize) ==> s1.candidate_rec(name, id2) == (CandidateView {
            candidate_votes: 0,
            ..s.candidate_rec(name, id2)
        }))
        &&& (!aux.contains(ci as usize) ==> s1.candidate_rec(name, id2) == s.candidate_rec(
            name,
            id2,
        ))
    } by {
        let ck = AccountKeyView::CandidateRecord(name, id2);
        let ci = s.key_index(ck);
        assert(s.has_key(ck));
        assert(0 <= ci < s.accounts.len() && s.accounts[ci].key == ck);
        assert(ci != pi);
        assert(s.account_coherent(s.accounts[ci]));
        lemma_candidate_encode_of_decode(s.accounts[ci].data);
        let c = s.candidate_rec(name, id2);
        let ci1 = if ci < pi {
            ci
        } else {
            ci - 1
        };
        assert(s1.accounts[ci1] == z[ci]);
        lemma_key_index_is(s1, ck, ci1);
        assert((ci as usize) as int == ci);
        if aux.contains(ci as usize) {
            assert(z[ci].data == spec_zero_votes_bytes(s.accounts[ci].data));
            lemma_zero_votes_encoded_candidate(c);
            lemma_candidate_round_trip(CandidateView { candidate_votes: 0, ..c });
        } else {
            assert(z[ci] == s.accounts[ci]);
        }
    }
    assert forall|k: AccountKeyView|
        s.has_key(k) && k != pk && (#[trigger] s.account_at(k)).owner != s.program_id
        implies s1.has_key(k) && s1.account_at(k) == s.account_at(k) by {
        let i = s.key_index(k);
        assert(0 <= i < s.accounts.len() && s.accounts[i].key == k);
        assert(i != pi);
        let i1 = if i < pi {
            i
        } else {
            i - 1
        };
        assert(s1.accounts[i1] == z[i]);
        assert(z[i] == s.accounts[i]);
        lemma_key_index_is(s1, k, i1);
    }
}

} // verus!
