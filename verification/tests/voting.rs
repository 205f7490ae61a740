use simple_voting_app::errors::CustomError;
use simple_voting_app::program::{Account, AccountKey, VotingApp};
use simple_voting_app::records::Poll;

fn program_id() -> Vec<u8> {
    vec![7u8; 32]
}

fn fresh_app() -> VotingApp {
    VotingApp::new(program_id())
}

fn candidate_index(app: &VotingApp, name: &[u8], poll_id: u64) -> usize {
    for (i, acc) in app.accounts.iter().enumerate() {
        if let AccountKey::CandidateRecord(n, id) = &acc.key {
            if n.as_slice() == name && *id == poll_id {
                return i;
            }
        }
    }
    panic!("candidate account not found");
}

#[test]
fn initialize_poll_stores_fields() {
    let mut app = fresh_app();
    let r = app.initialize_poll(9, b"What for lunch?".to_vec(), 5, 50);
    assert_eq!(r, Ok(()));
    let p = app.poll_record(9).unwrap();
    assert_eq!(p.poll_id, 9);
    assert_eq!(p.description, b"What for lunch?".to_vec());
    assert_eq!(p.poll_start, 5);
    assert_eq!(p.poll_end, 50);
    assert_eq!(p.candidate_amount, 0);
}

#[test]
fn initialize_poll_twice_collides() {
    let mut app = fresh_app();
    assert_eq!(app.initialize_poll(1, b"first".to_vec(), 0, 100), Ok(()));
    let r = app.initialize_poll(1, b"second".to_vec(), 3, 30);
    assert_eq!(r, Err(CustomError::AddressCollision));
    // the first record is untouched
    let p = app.poll_record(1).unwrap();
    assert_eq!(p.description, b"first".to_vec());
    assert_eq!(p.poll_end, 100);
}

#[test]
fn initialize_poll_rejects_long_description() {
    let mut app = fresh_app();
    let r = app.initialize_poll(1, vec![b'x'; 201], 0, 100);
    assert_eq!(r, Err(CustomError::ValidationError));
    assert!(app.poll_record(1).is_none());
    // exactly at the bound is fine
    assert_eq!(app.initialize_poll(1, vec![b'x'; 200], 0, 100), Ok(()));
}

#[test]
fn candidate_amount_counts_registrations() {
    let mut app = fresh_app();
    assert_eq!(app.initialize_poll(4, b"pets".to_vec(), 0, 9), Ok(()));
    assert_eq!(app.initialize_candidate(b"cat".to_vec(), 4), Ok(()));
    assert_eq!(app.initialize_candidate(b"dog".to_vec(), 4), Ok(()));
    assert_eq!(app.initialize_candidate(b"axolotl".to_vec(), 4), Ok(()));
    assert_eq!(app.poll_record(4).unwrap().candidate_amount, 3);
    let c = app.candidate_record(&b"dog".to_vec(), 4).unwrap();
    assert_eq!(c.candidate_votes, 0);
    assert_eq!(c.poll_id, 4);
    assert_eq!(c.candidate_name, b"dog".to_vec());
}

#[test]
fn initialize_candidate_requires_poll() {
    let mut app = fresh_app();
    let r = app.initialize_candidate(b"cat".to_vec(), 4);
    assert_eq!(r, Err(CustomError::NotFound));
}

#[test]
fn initialize_candidate_twice_collides() {
    let mut app = fresh_app();
    assert_eq!(app.initialize_poll(4, b"pets".to_vec(), 0, 9), Ok(()));
    assert_eq!(app.initialize_candidate(b"cat".to_vec(), 4), Ok(()));
    let r = app.initialize_candidate(b"cat".to_vec(), 4);
    assert_eq!(r, Err(CustomError::AddressCollision));
    // the counter reflects only the successful registration
    assert_eq!(app.poll_record(4).unwrap().candidate_amount, 1);
}

#[test]
fn initialize_candidate_rejects_long_name() {
    let mut app = fresh_app();
    assert_eq!(app.initialize_poll(4, b"pets".to_vec(), 0, 9), Ok(()));
    let r = app.initialize_candidate(vec![b'n'; 33], 4);
    assert_eq!(r, Err(CustomError::ValidationError));
    assert_eq!(app.poll_record(4).unwrap().candidate_amount, 0);
    assert_eq!(app.initialize_candidate(vec![b'n'; 32], 4), Ok(()));
}

#[test]
fn votes_accumulate() {
    let mut app = fresh_app();
    assert_eq!(app.initialize_poll(2, b"colors".to_vec(), 0, 10), Ok(()));
    assert_eq!(app.initialize_candidate(b"Green".to_vec(), 2), Ok(()));
    for expected in 1u64..=3 {
        assert_eq!(app.vote(b"Green".to_vec(), 2), Ok(()));
        let c = app.candidate_record(&b"Green".to_vec(), 2).unwrap();
        assert_eq!(c.candidate_votes, expected);
    }
}

#[test]
fn vote_requires_records() {
    let mut app = fresh_app();
    assert_eq!(app.vote(b"Green".to_vec(), 2), Err(CustomError::NotFound));
    assert_eq!(app.initialize_poll(2, b"colors".to_vec(), 0, 10), Ok(()));
    assert_eq!(app.vote(b"Green".to_vec(), 2), Err(CustomError::NotFound));
}

#[test]
fn delete_poll_mismatch_leaves_records() {
    // A poll record whose stored identifier disagrees with the key it was
    // filed under: the defense against address/content mismatch.
    let pid = program_id();
    let stored = Poll {
        poll_id: 1,
        description: b"odd".to_vec(),
        poll_start: 0,
        poll_end: 9,
        candidate_amount: 0,
    };
    let data = simple_voting_app::codec::encode_poll(&stored);
    let mut app = VotingApp {
        program_id: pid.clone(),
        accounts: vec![Account { key: AccountKey::PollRecord(2), owner: pid, data }],
    };
    let r = app.delete_poll(2, &vec![]);
    assert_eq!(r, Err(CustomError::PollIdMismatch));
    // nothing changed
    assert_eq!(app.accounts.len(), 1);
    let p = app.poll_record(2).unwrap();
    assert_eq!(p.poll_id, 1);
    assert_eq!(p.description, b"odd".to_vec());
    // and a poll that does not exist at all is NotFound
    assert_eq!(app.delete_poll(1, &vec![]), Err(CustomError::NotFound));
}

#[test]
fn delete_poll_resets_named_candidates() {
    let mut app = fresh_app();
    assert_eq!(app.initialize_poll(1, b"colors".to_vec(), 0, 100), Ok(()));
    assert_eq!(app.initialize_candidate(b"Red".to_vec(), 1), Ok(()));
    assert_eq!(app.initialize_candidate(b"Blue".to_vec(), 1), Ok(()));
    assert_eq!(app.vote(b"Red".to_vec(), 1), Ok(()));
    assert_eq!(app.vote(b"Blue".to_vec(), 1), Ok(()));
    // an account owned by another program, also named in the list
    let foreign_bytes = vec![9u8; 30];
    let foreign = app.place_external_account(77, vec![8u8; 32], foreign_bytes.clone());
    let red = candidate_index(&app, b"Red", 1);
    let blue = candidate_index(&app, b"Blue", 1);
    let aux = vec![red, blue, foreign];
    assert_eq!(app.delete_poll(1, &aux), Ok(()));
    // the poll record is gone
    assert!(app.poll_record(1).is_none());
    // both candidate records are reset, not removed
    let r = app.candidate_record(&b"Red".to_vec(), 1).unwrap();
    assert_eq!(r.candidate_votes, 0);
    assert_eq!(r.candidate_name, b"Red".to_vec());
    assert_eq!(r.poll_id, 1);
    let b = app.candidate_record(&b"Blue".to_vec(), 1).unwrap();
    assert_eq!(b.candidate_votes, 0);
    assert_eq!(b.candidate_name, b"Blue".to_vec());
    assert_eq!(b.poll_id, 1);
    // the foreign account was silently skipped
    let kept = app
        .accounts
        .iter()
        .find(|a| matches!(a.key, AccountKey::External(77)))
        .unwrap();
    assert_eq!(kept.data, foreign_bytes);
}

#[test]
fn delete_poll_skips_unnamed_candidates() {
    let mut app = fresh_app();
    assert_eq!(app.initialize_poll(1, b"colors".to_vec(), 0, 100), Ok(()));
    assert_eq!(app.initialize_candidate(b"Red".to_vec(), 1), Ok(()));
    assert_eq!(app.initialize_candidate(b"Blue".to_vec(), 1), Ok(()));
    assert_eq!(app.vote(b"Blue".to_vec(), 1), Ok(()));
    let red = candidate_index(&app, b"Red", 1);
    // only Red is named; Blue keeps its vote
    assert_eq!(app.delete_poll(1, &vec![red]), Ok(()));
    assert_eq!(app.candidate_record(&b"Red".to_vec(), 1).unwrap().candidate_votes, 0);
    assert_eq!(app.candidate_record(&b"Blue".to_vec(), 1).unwrap().candidate_votes, 1);
}

#[test]
fn scenario_favorite_color() {
    let mut app = fresh_app();
    assert_eq!(app.initialize_poll(1, b"Favorite color".to_vec(), 0, 100), Ok(()));
    assert_eq!(app.initialize_candidate(b"Red".to_vec(), 1), Ok(()));
    assert_eq!(app.initialize_candidate(b"Blue".to_vec(), 1), Ok(()));
    assert_eq!(app.poll_record(1).unwrap().candidate_amount, 2);
    assert_eq!(app.vote(b"Red".to_vec(), 1), Ok(()));
    assert_eq!(app.vote(b"Red".to_vec(), 1), Ok(()));
    assert_eq!(app.candidate_record(&b"Red".to_vec(), 1).unwrap().candidate_votes, 2);
    let red = candidate_index(&app, b"Red", 1);
    let blue = candidate_index(&app, b"Blue", 1);
    assert_eq!(app.delete_poll(1, &vec![red, blue]), Ok(()));
    assert_eq!(app.candidate_record(&b"Red".to_vec(), 1).unwrap().candidate_votes, 0);
    assert_eq!(app.candidate_record(&b"Blue".to_vec(), 1).unwrap().candidate_votes, 0);
    assert!(app.poll_record(1).is_none());
}

#[test]
fn poll_id_reusable_after_delete() {
    let mut app = fresh_app();
    assert_eq!(app.initialize_poll(1, b"one".to_vec(), 0, 10), Ok(()));
    assert_eq!(app.initialize_candidate(b"Red".to_vec(), 1), Ok(()));
    assert_eq!(app.delete_poll(1, &vec![]), Ok(()));
    // the address is free again; the old candidate record lingers
    assert_eq!(app.initialize_poll(1, b"two".to_vec(), 0, 10), Ok(()));
    assert_eq!(app.poll_record(1).unwrap().candidate_amount, 0);
    assert_eq!(
        app.initialize_candidate(b"Red".to_vec(), 1),
        Err(CustomError::AddressCollision)
    );
}
