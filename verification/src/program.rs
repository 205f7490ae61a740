use vstd::prelude::*;
use vstd::slice::slice_to_vec;

use crate::codec::{
    decode_candidate, decode_poll, encode_candidate, encode_poll, spec_decode_candidate,
    spec_decode_poll, spec_encode_candidate, spec_encode_poll, spec_zero_votes_bytes,
    zero_votes_bytes, lemma_candidate_round_trip, lemma_poll_round_trip,
    lemma_candidate_encode_of_decode, lemma_poll_encode_of_decode,
    lemma_zero_votes_encoded_candidate, lemma_zero_votes_encoded_poll, RESET_HI,
};
use crate::errors::CustomError;
use crate::records::{
    Candidate, CandidateView, Poll, PollView, MAX_DESCRIPTION_BYTES, MAX_NAME_BYTES,
};

verus! {

// The ledger model: every record is an addressable account with an owning
// program and a byte payload in the layout of `codec`. Accounts created by
// this program are keyed by the semantic key its address derivation is fed
// with; the host resolves caller-supplied addresses against that formula.

/// The semantic key from which a record's storage address is derived.
#[derive(Debug)]
pub enum AccountKey {
    /// The poll record for a poll identifier.
    PollRecord(u64),
    /// The candidate record for a (name, poll identifier) pair.
    CandidateRecord(Vec<u8>, u64),
    /// An address not derived by this program.
    External(u64),
}

/// The mathematical value of an [`AccountKey`].
pub enum AccountKeyView {
    PollRecord(u64),
    CandidateRecord(Seq<u8>, u64),
    External(u64),
}

impl View for AccountKey {
    type V = AccountKeyView;

    open spec fn view(&self) -> AccountKeyView {
        match self {
            AccountKey::PollRecord(id) => AccountKeyView::PollRecord(*id),
            AccountKey::CandidateRecord(name, id) => AccountKeyView::CandidateRecord(name@, *id),
            AccountKey::External(x) => AccountKeyView::External(*x),
        }
    }
}

/// One addressable unit of persistent state.
#[derive(Debug)]
pub struct Account {
    pub key: AccountKey,
    pub owner: Vec<u8>,
    pub data: Vec<u8>,
}

/// The mathematical value of an [`Account`].
pub struct AccountView {
    pub key: AccountKeyView,
    pub owner: Seq<u8>,
    pub data: Seq<u8>,
}

impl View for Account {
    type V = AccountView;

    open spec fn view(&self) -> AccountView {
        AccountView { key: self.key@, owner: self.owner@, data: self.data@ }
    }
}

/// The voting program together with its slice of the ledger: the accounts
/// the host would hand it, each at the address derived from its key.
#[derive(Debug)]
pub struct VotingApp {
    pub program_id: Vec<u8>,
    pub accounts: Vec<Account>,
}

/// The mathematical value of a [`VotingApp`].
pub struct VotingAppView {
    pub program_id: Seq<u8>,
    pub accounts: Seq<AccountView>,
}

impl View for VotingApp {
    type V = VotingAppView;

    open spec fn view(&self) -> VotingAppView {
        VotingAppView {
            program_id: self.program_id@,
            accounts: self.accounts@.map_values(|a: Account| a@),
        }
    }
}

/// The account is a candidate record of this program's addressing scheme.
pub open spec fn is_candidate_account(a: AccountView) -> bool {
    a.key matches AccountKeyView::CandidateRecord(_, _)
}

/// How many candidate records the ledger holds.
pub open spec fn count_candidate_accounts(accs: Seq<AccountView>) -> nat
    decreases accs.len(),
{
    if accs.len() == 0 {
        0
    } else {
        count_candidate_accounts(accs.drop_last()) + (if is_candidate_account(accs.last()) {
            1nat
        } else {
            0nat
        })
    }
}

pub proof fn lemma_count_le_len(accs: Seq<AccountView>)
    ensures
        count_candidate_accounts(accs) <= accs.len(),
    decreases accs.len(),
{
    if accs.len() > 0 {
        lemma_count_le_len(accs.drop_last());
    }
}

pub proof fn lemma_count_push(accs: Seq<AccountView>, a: AccountView)
    ensures
        count_candidate_accounts(accs.push(a)) == count_candidate_accounts(accs) + (
        if is_candidate_account(a) {
            1nat
        } else {
            0nat
        }),
{
    assert(accs.push(a).drop_last() =~= accs);
    assert(accs.push(a).last() == a);
}

pub proof fn lemma_count_update(accs: Seq<AccountView>, i: int, a: AccountView)
    requires
        0 <= i < accs.len(),
        is_candidate_account(a) == is_candidate_account(accs[i]),
    ensures
        count_candidate_accounts(accs.update(i, a)) == count_candidate_accounts(accs),
    decreases accs.len(),
{
    let u = accs.update(i, a);
    if i == accs.len() - 1 {
        assert(u.drop_last() =~= accs.drop_last());
        assert(u.last() == a);
    } else {
        assert(u.drop_last() =~= accs.drop_last().update(i, a));
        assert(u.last() == accs.last());
        lemma_count_update(accs.drop_last(), i, a);
    }
}

pub proof fn lemma_count_remove(accs: Seq<AccountView>, i: int)
    requires
        0 <= i < accs.len(),
        !is_candidate_account(accs[i]),
    ensures
        count_candidate_accounts(accs.remove(i)) == count_candidate_accounts(accs),
    decreases accs.len(),
{
    let u = accs.remove(i);
    if i == accs.len() - 1 {
        assert(u =~= accs.drop_last());
    } else {
        assert(u.drop_last() =~= accs.drop_last().remove(i));
        assert(u.last() == accs.last());
        lemma_count_remove(accs.drop_last(), i);
    }
}

impl VotingAppView {
    /// Some account sits at the address derived from `k`.
    pub open spec fn has_key(self, k: AccountKeyView) -> bool {
        exists|i: int| 0 <= i < self.accounts.len() && self.accounts[i].key == k
    }

    /// The position of the account at the address derived from `k`.
    pub open spec fn key_index(self, k: AccountKeyView) -> int {
        choose|i: int| 0 <= i < self.accounts.len() && self.accounts[i].key == k
    }

    /// The account at the address derived from `k`.
    pub open spec fn account_at(self, k: AccountKeyView) -> AccountView {
        self.accounts[self.key_index(k)]
    }

    /// A poll record for `poll_id` exists and is owned by this program.
    pub open spec fn poll_loaded(self, poll_id: u64) -> bool {
        &&& self.has_key(AccountKeyView::PollRecord(poll_id))
        &&& self.account_at(AccountKeyView::PollRecord(poll_id)).owner == self.program_id
    }

    /// The poll record stored for `poll_id`.
    pub open spec fn poll_rec(self, poll_id: u64) -> PollView
        recommends
            self.poll_loaded(poll_id),
    {
        spec_decode_poll(self.account_at(AccountKeyView::PollRecord(poll_id)).data)->Some_0
    }

    /// A candidate record for (`name`, `poll_id`) exists and is owned by
    /// this program.
    pub open spec fn candidate_loaded(self, name: Seq<u8>, poll_id: u64) -> bool {
        &&& self.has_key(AccountKeyView::CandidateRecord(name, poll_id))
        &&& self.account_at(AccountKeyView::CandidateRecord(name, poll_id)).owner
            == self.program_id
    }

    /// The candidate record stored for (`name`, `poll_id`).
    pub open spec fn candidate_rec(self, name: Seq<u8>, poll_id: u64) -> CandidateView
        recommends
            self.candidate_loaded(name, poll_id),
    {
        spec_decode_candidate(
            self.account_at(AccountKeyView::CandidateRecord(name, poll_id)).data,
        )->Some_0
    }

    /// A program-owned account holds a well-formed record of the type its
    /// key announces, and a poll's registration counter never exceeds the
    /// number of candidate records in the ledger.
    pub open spec fn account_coherent(self, a: AccountView) -> bool {
        match a.key {
            AccountKeyView::PollRecord(_) => spec_decode_poll(a.data) matches Some(p)
                && p.candidate_amount <= count_candidate_accounts(self.accounts),
            AccountKeyView::CandidateRecord(_, _) => spec_decode_candidate(a.data) is Some,
            AccountKeyView::External(_) => false,
        }
    }

    /// The ledger's strict account-state invariant: addresses are unique,
    /// and every program-owned account is coherent.
    pub open spec fn wf(self) -> bool {
        &&& self.program_id.len() == 32
        &&& forall|i: int, j: int|
            #![trigger self.accounts[i].key, self.accounts[j].key]
            0 <= i < j < self.accounts.len() ==> self.accounts[i].key != self.accounts[j].key
        &&& forall|i: int|
            0 <= i < self.accounts.len() && (#[trigger] self.accounts[i]).owner == self.program_id
                ==> self.account_coherent(self.accounts[i])
    }
}

pub proof fn lemma_count_same_kinds(a: Seq<AccountView>, b: Seq<AccountView>)
    requires
        a.len() == b.len(),
        forall|i: int|
            0 <= i < a.len() ==> is_candidate_account(#[trigger] a[i]) == is_candidate_account(
                b[i],
            ),
    ensures
        count_candidate_accounts(a) == count_candidate_accounts(b),
    decreases a.len(),
{
    if a.len() > 0 {
        lemma_count_same_kinds(a.drop_last(), b.drop_last());
    }
}

/// Under key uniqueness, an account's position is pinned by its key.
pub proof fn lemma_key_index_is(s: VotingAppView, k: AccountKeyView, i: int)
    requires
        forall|a: int, b: int|
            #![trigger s.accounts[a].key, s.accounts[b].key]
            0 <= a < b < s.accounts.len() ==> s.accounts[a].key != s.accounts[b].key,
        0 <= i < s.accounts.len(),
        s.accounts[i].key == k,
    ensures
        s.has_key(k),
        s.key_index(k) == i,
{
    assert(s.has_key(k));
    let j = s.key_index(k);
    assert(0 <= j < s.accounts.len() && s.accounts[j].key == k);
    if j < i {
        assert(s.accounts[j].key != s.accounts[i].key);
    } else if i < j {
        assert(s.accounts[i].key != s.accounts[j].key);
    }
}

/// Byte-string equality.
pub fn bytes_eq(a: &Vec<u8>, b: &Vec<u8>) -> (r: bool)
    ensures
        r == (a@ == b@),
{
    if a.len() != b.len() {
        return false;
    }
    let mut i: usize = 0;
    while i < a.len()
        invariant
            i <= a@.len(),
            a@.len() == b@.len(),
            forall|j: int| 0 <= j < i ==> a@[j] == b@[j],
        decreases a@.len() - i,
    {
        if a[i] != b[i] {
            return false;
        }
        i += 1;
    }
    proof {
        assert(a@ =~= b@);
    }
    true
}

/// What `initialize_poll` does: allocate a fresh poll record with the
/// supplied fields and a zero registration counter, unless an account
/// already sits at the poll's derived address (AddressCollision) or the
/// description exceeds its bound (ValidationError).
pub open spec fn spec_initialize_poll(
    s: VotingAppView,
    poll_id: u64,
    description: Seq<u8>,
    poll_start: u64,
    poll_end: u64,
) -> (VotingAppView, Result<(), CustomError>) {
    if s.has_key(AccountKeyView::PollRecord(poll_id)) {
        (s, Err(CustomError::AddressCollision))
    } else if description.len() > MAX_DESCRIPTION_BYTES {
        (s, Err(CustomError::ValidationError))
    } else {
        let p = PollView { poll_id, description, poll_start, poll_end, candidate_amount: 0 };
        let acc = AccountView {
            key: AccountKeyView::PollRecord(poll_id),
            owner: s.program_id,
            data: spec_encode_poll(p),
        };
        (VotingAppView { accounts: s.accounts.push(acc), ..s }, Ok(()))
    }
}

impl VotingApp {
    /// A fresh program with an empty slice of the ledger.
    pub fn new(program_id: Vec<u8>) -> (r: VotingApp)
        requires
            program_id@.len() == 32,
        ensures
            r@.wf(),
            r@.program_id == program_id@,
            r@.accounts.len() == 0,
    {
        let r = VotingApp { program_id, accounts: Vec::new() };
        proof {
            assert(r@.accounts =~= Seq::<AccountView>::empty());
        }
        r
    }

    fn find_poll_index(&self, poll_id: u64) -> (r: Option<usize>)
        ensures
            r matches Some(i) ==> i < self@.accounts.len() && self@.accounts[i as int].key
                == AccountKeyView::PollRecord(poll_id),
            r is None ==> !self@.has_key(AccountKeyView::PollRecord(poll_id)),
    {
        let n = self.accounts.len();
        let mut i: usize = 0;
        while i < n
            invariant
                n == self@.accounts.len(),
                i <= n,
                forall|j: int|
                    0 <= j < i ==> (#[trigger] self@.accounts[j].key) != AccountKeyView::PollRecord(
                        poll_id,
                    ),
            decreases n - i,
        {
            match &self.accounts[i].key {
                AccountKey::PollRecord(id) => {
                    if *id == poll_id {
                        return Some(i);
                    }
                },
                _ => {},
            }
            i += 1;
        }
        None
    }

    fn find_candidate_index(&self, candidate_name: &Vec<u8>, poll_id: u64) -> (r: Option<usize>)
        ensures
            r matches Some(i) ==> i < self@.accounts.len() && self@.accounts[i as int].key
                == AccountKeyView::CandidateRecord(candidate_name@, poll_id),
            r is None ==> !self@.has_key(AccountKeyView::CandidateRecord(candidate_name@, poll_id)),
    {
        let n = self.accounts.len();
        let mut i: usize = 0;
        while i < n
            invariant
                n == self@.accounts.len(),
                i <= n,
                forall|j: int|
                    0 <= j < i ==> (#[trigger] self@.accounts[j].key)
                        != AccountKeyView::CandidateRecord(candidate_name@, poll_id),
            decreases n - i,
        {
            match &self.accounts[i].key {
                AccountKey::CandidateRecord(name, id) => {
                    if *id == poll_id && bytes_eq(name, candidate_name) {
                        return Some(i);
                    }
                },
                _ => {},
            }
            i += 1;
        }
        None
    }

    /// Create a new poll.
    ///
    /// Fails with AddressCollision if an account already exists at the
    /// poll's derived address, and with ValidationError if the description
    /// exceeds its bound; on failure the ledger is unchanged.
    pub fn initialize_poll(
        &mut self,
        poll_id: u64,
        description: Vec<u8>,
        poll_start: u64,
        poll_end: u64,
    ) -> (r: Result<(), CustomError>)
        requires
            old(self)@.wf(),
        ensures
            final(self)@.wf(),
            (final(self)@, r) == spec_initialize_poll(
                old(self)@,
                poll_id,
                description@,
                poll_start,
                poll_end,
            ),
    {
        let ghost s0 = self@;
        if let Some(_) = self.find_poll_index(poll_id) {
            return Err(CustomError::AddressCollision);
        }
        if description.len() > MAX_DESCRIPTION_BYTES {
            return Err(CustomError::ValidationError);
        }
        let p = Poll { poll_id, description, poll_start, poll_end, candidate_amount: 0 };
        let data = encode_poll(&p);
        let owner = slice_to_vec(self.program_id.as_slice());
        self.accounts.push(Account { key: AccountKey::PollRecord(poll_id), owner, data });
        proof {
            let (s1, res) = spec_initialize_poll(s0, poll_id, p@.description, poll_start, poll_end);
            assert(self@.accounts =~= s1.accounts);
            assert(self@ == s1);
            lemma_poll_round_trip(p@);
            lemma_count_push(s0.accounts, self@.accounts.last());
            assert forall|i: int|
                0 <= i < s1.accounts.len() && (#[trigger] s1.accounts[i]).owner == s1.program_id
                implies s1.account_coherent(s1.accounts[i]) by {
                if i < s0.accounts.len() {
                    assert(s0.account_coherent(s0.accounts[i]));
                }
            }
            assert(s1.wf());
        }
        Ok(())
    }
}

/// What `initialize_candidate` does: increment the poll's registration
/// counter and allocate a fresh candidate record with a zero vote counter,
/// unless the poll record is missing (NotFound), an account already sits at
/// the candidate's derived address (AddressCollision) or the name exceeds
/// its bound (ValidationError).
pub open spec fn spec_initialize_candidate(
    s: VotingAppView,
    candidate_name: Seq<u8>,
    poll_id: u64,
) -> (VotingAppView, Result<(), CustomError>) {
    if !s.poll_loaded(poll_id) {
        (s, Err(CustomError::NotFound))
    } else if s.has_key(AccountKeyView::CandidateRecord(candidate_name, poll_id)) {
        (s, Err(CustomError::AddressCollision))
    } else if candidate_name.len() > MAX_NAME_BYTES {
        (s, Err(CustomError::ValidationError))
    } else {
        let p = s.poll_rec(poll_id);
        let p2 = PollView { candidate_amount: (p.candidate_amount + 1) as u64, ..p };
        let pacc = AccountView {
            key: AccountKeyView::PollRecord(poll_id),
            owner: s.program_id,
            data: spec_encode_poll(p2),
        };
        let c = CandidateView { poll_id, candidate_votes: 0, candidate_name };
        let cacc = AccountView {
            key: AccountKeyView::CandidateRecord(candidate_name, poll_id),
            owner: s.program_id,
            data: spec_encode_candidate(c),
        };
        (
            VotingAppView {
                accounts: s.accounts.update(
                    s.key_index(AccountKeyView::PollRecord(poll_id)),
                    pacc,
                ).push(cacc),
                ..s
            },
            Ok(()),
        )
    }
}

/// What `vote` does: increment the candidate's vote counter by exactly one,
/// unless the poll record or the candidate record is missing (NotFound).
/// Any signer may vote, repeatedly: no double-vote guard exists.
pub open spec fn spec_vote(s: VotingAppView, candidate_name: Seq<u8>, poll_id: u64) -> (
    VotingAppView,
    Result<(), CustomError>,
) {
    if !s.poll_loaded(poll_id) {
        (s, Err(CustomError::NotFound))
    } else if !s.candidate_loaded(candidate_name, poll_id) {
        (s, Err(CustomError::NotFound))
    } else {
        let c = s.candidate_rec(candidate_name, poll_id);
        let c2 = CandidateView { candidate_votes: (c.candidate_votes + 1) as u64, ..c };
        let cacc = AccountView {
            key: AccountKeyView::CandidateRecord(candidate_name, poll_id),
            owner: s.program_id,
            data: spec_encode_candidate(c2),
        };
        (
            VotingAppView {
                accounts: s.accounts.update(
                    s.key_index(AccountKeyView::CandidateRecord(candidate_name, poll_id)),
                    cacc,
                ),
                ..s
            },
            Ok(()),
        )
    }
}

impl VotingApp {
    /// Register a candidate under an existing poll.
    ///
    /// Increments the poll's `candidate_amount` by 1 and creates the
    /// candidate record with `candidate_votes = 0`.
    pub fn initialize_candidate(&mut self, candidate_name: Vec<u8>, poll_id: u64) -> (r: Result<
        (),
        CustomError,
    >)
        requires
            old(self)@.wf(),
        ensures
            final(self)@.wf(),
            (final(self)@, r) == spec_initialize_candidate(old(self)@, candidate_name@, poll_id),
    {
        let ghost s0 = self@;
        let pi = match self.find_poll_index(poll_id) {
            Some(i) => i,
            None => {
                return Err(CustomError::NotFound);
            },
        };
        proof {
            lemma_key_index_is(s0, AccountKeyView::PollRecord(poll_id), pi as int);
        }
        if !bytes_eq(&self.accounts[pi].owner, &self.program_id) {
            return Err(CustomError::NotFound);
        }
        if let Some(_) = self.find_candidate_index(&candidate_name, poll_id) {
            return Err(CustomError::AddressCollision);
        }
        if candidate_name.len() > MAX_NAME_BYTES {
            return Err(CustomError::ValidationError);
        }
        let poll_rec = match decode_poll(&self.accounts[pi].data) {
            Some(p) => p,
            None => {
                proof {
                    assert(false);
                }
                return Err(CustomError::NotFound);
            },
        };
        proof {
            lemma_poll_encode_of_decode(s0.accounts[pi as int].data);
        }
        // Push the candidate record first: its presence in the ledger is
        // what bounds the poll's registration counter.
        let name_copy = slice_to_vec(candidate_name.as_slice());
        let cand = Candidate { poll_id, candidate_votes: 0, candidate_name };
        let cdata = encode_candidate(&cand);
        let cowner = slice_to_vec(self.program_id.as_slice());
        self.accounts.push(
            Account { key: AccountKey::CandidateRecord(name_copy, poll_id), owner: cowner, data: cdata },
        );
        let m = self.accounts.len();
        proof {
            lemma_count_le_len(s0.accounts);
            assert(s0.account_coherent(s0.accounts[pi as int]));
            assert(m == s0.accounts.len() + 1);
            assert(poll_rec@.candidate_amount < u64::MAX);
        }
        let new_amount = poll_rec.candidate_amount + 1;
        let p2 = Poll { candidate_amount: new_amount, ..poll_rec };
        let pdata = encode_poll(&p2);
        let powner = slice_to_vec(self.program_id.as_slice());
        self.accounts[pi] = Account { key: AccountKey::PollRecord(poll_id), owner: powner, data: pdata };
        proof {
            let (s1, res) = spec_initialize_candidate(s0, cand@.candidate_name, poll_id);
            let pacc = s1.accounts[pi as int];
            let cacc = s1.accounts[s1.accounts.len() - 1];
            assert(self@.accounts =~= s1.accounts);
            assert(self@ == s1);
            lemma_poll_round_trip(p2@);
            lemma_candidate_round_trip(cand@);
            lemma_count_update(s0.accounts, pi as int, self@.accounts[pi as int]);
            lemma_count_push(
                s0.accounts.update(pi as int, self@.accounts[pi as int]),
                self@.accounts.last(),
            );
            assert(count_candidate_accounts(s1.accounts) == count_candidate_accounts(s0.accounts)
                + 1);
            assert forall|i: int, j: int|
                #![trigger s1.accounts[i].key, s1.accounts[j].key]
                0 <= i < j < s1.accounts.len() implies s1.accounts[i].key != s1.accounts[j].key by {
                if j < s1.accounts.len() - 1 {
                    assert(s1.accounts[i].key == s0.accounts[i].key);
                    assert(s1.accounts[j].key == s0.accounts[j].key);
                }
            }
            assert forall|i: int|
                0 <= i < s1.accounts.len() && (#[trigger] s1.accounts[i]).owner == s1.program_id
                implies s1.account_coherent(s1.accounts[i]) by {
                if i < s0.accounts.len() && i != pi as int {
                    assert(s0.account_coherent(s0.accounts[i]));
                }
            }
            assert(s1.wf());
        }
        Ok(())
    }

    /// Cast one vote for an existing candidate of an existing poll.
    ///
    /// The candidate's counter must not already be full: it is a 64-bit
    /// counter, and this entry point never wraps it.
    pub fn vote(&mut self, candidate_name: Vec<u8>, poll_id: u64) -> (r: Result<(), CustomError>)
        requires
            old(self)@.wf(),
            old(self)@.poll_loaded(poll_id) && old(self)@.candidate_loaded(
                candidate_name@,
                poll_id,
            ) ==> old(self)@.candidate_rec(candidate_name@, poll_id).candidate_votes < u64::MAX,
        ensures
            final(self)@.wf(),
            (final(self)@, r) == spec_vote(old(self)@, candidate_name@, poll_id),
    {
        let ghost s0 = self@;
        let pi = match self.find_poll_index(poll_id) {
            Some(i) => i,
            None => {
                return Err(CustomError::NotFound);
            },
        };
        proof {
            lemma_key_index_is(s0, AccountKeyView::PollRecord(poll_id), pi as int);
        }
        if !bytes_eq(&self.accounts[pi].owner, &self.program_id) {
            return Err(CustomError::NotFound);
        }
        let ci = match self.find_candidate_index(&candidate_name, poll_id) {
            Some(i) => i,
            None => {
                return Err(CustomError::NotFound);
            },
        };
        proof {
            lemma_key_index_is(
                s0,
                AccountKeyView::CandidateRecord(candidate_name@, poll_id),
                ci as int,
            );
        }
        if !bytes_eq(&self.accounts[ci].owner, &self.program_id) {
            return Err(CustomError::NotFound);
        }
        let cand_rec = match decode_candidate(&self.accounts[ci].data) {
            Some(c) => c,
            None => {
                proof {
                    assert(false);
                }
                return Err(CustomError::NotFound);
            },
        };
        proof {
            lemma_candidate_encode_of_decode(s0.accounts[ci as int].data);
        }
        let new_votes = cand_rec.candidate_votes + 1;
        let name_copy = slice_to_vec(candidate_name.as_slice());
        let c2 = Candidate { candidate_votes: new_votes, ..cand_rec };
        let cdata = encode_candidate(&c2);
        let cowner = slice_to_vec(self.program_id.as_slice());
        self.accounts[ci] = Account {
            key: AccountKey::CandidateRecord(name_copy, poll_id),
            owner: cowner,
            data: cdata,
        };
        proof {
            let (s1, res) = spec_vote(s0, candidate_name@, poll_id);
            assert(self@.accounts =~= s1.accounts);
            assert(self@ == s1);
            lemma_candidate_round_trip(c2@);
            lemma_count_update(s0.accounts, ci as int, self@.accounts[ci as int]);
            assert forall|i: int, j: int|
                #![trigger s1.accounts[i].key, s1.accounts[j].key]
                0 <= i < j < s1.accounts.len() implies s1.accounts[i].key != s1.accounts[j].key by {
                assert(s1.accounts[i].key == s0.accounts[i].key);
                assert(s1.accounts[j].key == s0.accounts[j].key);
            }
            assert forall|i: int|
                0 <= i < s1.accounts.len() && (#[trigger] s1.accounts[i]).owner == s1.program_id
                implies s1.account_coherent(s1.accounts[i]) by {
                if i != ci as int {
                    assert(s0.account_coherent(s0.accounts[i]));
                }
            }
            assert(s1.wf());
        }
        Ok(())
    }

    /// The host placing an account owned by another program, at an address
    /// this program never derives; models the ledger's other tenants.
    pub fn place_external_account(&mut self, marker: u64, owner: Vec<u8>, data: Vec<u8>) -> (r:
        usize)
        requires
            old(self)@.wf(),
            owner@ != old(self)@.program_id,
            !old(self)@.has_key(AccountKeyView::External(marker)),
        ensures
            final(self)@.wf(),
            final(self)@.program_id == old(self)@.program_id,
            final(self)@.accounts == old(self)@.accounts.push(
                AccountView { key: AccountKeyView::External(marker), owner: owner@, data: data@ },
            ),
            r == old(self)@.accounts.len(),
    {
        let ghost s0 = self@;
        let r = self.accounts.len();
        let ghost aview = AccountView {
            key: AccountKeyView::External(marker),
            owner: owner@,
            data: data@,
        };
        self.accounts.push(Account { key: AccountKey::External(marker), owner, data });
        proof {
            assert(self@.accounts =~= s0.accounts.push(aview));
            lemma_count_push(s0.accounts, aview);
            assert forall|i: int|
                0 <= i < self@.accounts.len() && (#[trigger] self@.accounts[i]).owner
                    == self@.program_id implies self@.account_coherent(self@.accounts[i]) by {
                if i < s0.accounts.len() {
                    assert(s0.account_coherent(s0.accounts[i]));
                }
            }
            assert(self@.wf());
        }
        r
    }
}

/// The ledger after the reset pass of `delete_poll`: every account named by
/// `aux` and owned by this program has the bytes at offsets 16..24 of its
/// data overwritten with zero; everything else is untouched.
pub open spec fn spec_reset_pass(s: VotingAppView, aux: Seq<usize>) -> Seq<AccountView> {
    Seq::new(
        s.accounts.len(),
        |i: int|
            if aux.contains(i as usize) && s.accounts[i].owner == s.program_id {
                AccountView { data: spec_zero_votes_bytes(s.accounts[i].data), ..s.accounts[i] }
            } else {
                s.accounts[i]
            },
    )
}

/// What `delete_poll` does: close the poll record and reset the vote
/// counter field of the caller-supplied, program-owned auxiliary records,
/// unless the poll record is missing (NotFound) or its stored identifier
/// disagrees with the argument (PollIdMismatch). Auxiliary accounts not
/// owned by this program are silently skipped.
pub open spec fn spec_delete_poll(s: VotingAppView, poll_id: u64, aux: Seq<usize>) -> (
    VotingAppView,
    Result<(), CustomError>,
) {
    if !s.poll_loaded(poll_id) {
        (s, Err(CustomError::NotFound))
    } else if s.poll_rec(poll_id).poll_id != poll_id {
        (s, Err(CustomError::PollIdMismatch))
    } else {
        (
            VotingAppView {
                accounts: spec_reset_pass(s, aux).remove(
                    s.key_index(AccountKeyView::PollRecord(poll_id)),
                ),
                ..s
            },
            Ok(()),
        )
    }
}

impl VotingApp {
    /// Delete a poll, resetting caller-supplied candidate records in bulk.
    ///
    /// `aux` is a variable-length list of account positions chosen by the
    /// caller; it is a capability list, not derived internally. For each
    /// named account owned by this program the bytes at offsets 16..24 —
    /// the `candidate_votes` field of a candidate record — are overwritten
    /// with zero, leaving the rest of the record untouched; other accounts
    /// are silently skipped. The program does not check that the named
    /// accounts belong to this poll. The poll record itself is removed.
    pub fn delete_poll(&mut self, poll_id: u64, aux: &Vec<usize>) -> (r: Result<(), CustomError>)
        requires
            old(self)@.wf(),
            forall|k: int| 0 <= k < aux@.len() ==> (#[trigger] aux@[k]) < old(self)@.accounts.len(),
        ensures
            final(self)@.wf(),
            (final(self)@, r) == spec_delete_poll(old(self)@, poll_id, aux@),
    {
        let ghost s0 = self@;
        let pi = match self.find_poll_index(poll_id) {
            Some(i) => i,
            None => {
                return Err(CustomError::NotFound);
            },
        };
        proof {
            lemma_key_index_is(s0, AccountKeyView::PollRecord(poll_id), pi as int);
        }
        if !bytes_eq(&self.accounts[pi].owner, &self.program_id) {
            return Err(CustomError::NotFound);
        }
        let poll_rec = match decode_poll(&self.accounts[pi].data) {
            Some(p) => p,
            None => {
                proof {
                    assert(false);
                }
                return Err(CustomError::NotFound);
            },
        };
        if poll_rec.poll_id != poll_id {
            return Err(CustomError::PollIdMismatch);
        }
        let ghost zeroed = spec_reset_pass(s0, aux@);
        let n = self.accounts.len();
        let mut k: usize = 0;
        while k < aux.len()
            invariant
                k <= aux@.len(),
                n == s0.accounts.len(),
                self@.program_id == s0.program_id,
                self@.accounts.len() == s0.accounts.len(),
                forall|k2: int| 0 <= k2 < aux@.len() ==> (#[trigger] aux@[k2]) < s0.accounts.len(),
                s0.wf(),
                forall|i: int|
                    0 <= i < s0.accounts.len() ==> #[trigger] self@.accounts[i] == (
                    if (exists|k2: int| 0 <= k2 < k && aux@[k2] == i) && s0.accounts[i].owner
                        == s0.program_id {
                        AccountView {
                            data: spec_zero_votes_bytes(s0.accounts[i].data),
                            ..s0.accounts[i]
                        }
                    } else {
                        s0.accounts[i]
                    }),
            decreases aux@.len() - k,
        {
            let ghost pre = self@;
            let j = aux[k];
            let owned = bytes_eq(&self.accounts[j].owner, &self.program_id);
            if owned {
                proof {
                    assert(pre.accounts[j as int].owner == s0.accounts[j as int].owner);
                    assert(s0.accounts[j as int].owner == s0.program_id);
                    assert(s0.account_coherent(s0.accounts[j as int]));
                    assert(s0.accounts[j as int].data.len() >= RESET_HI);
                    assert(pre.accounts[j as int].data.len() >= RESET_HI);
                }
                let acc = &mut self.accounts[j];
                zero_votes_bytes(&mut acc.data);
            }
            k += 1;
            proof {
                assert forall|i: int| 0 <= i < s0.accounts.len() implies #[trigger] self@.accounts[i]
                    == (
                if (exists|k2: int| 0 <= k2 < k && aux@[k2] == i) && s0.accounts[i].owner
                    == s0.program_id {
                    AccountView { data: spec_zero_votes_bytes(s0.accounts[i].data), ..s0.accounts[i] }
                } else {
                    s0.accounts[i]
                }) by {
                    if i == j as int {
                        assert(aux@[k - 1] == i);
                        if s0.accounts[i].owner == s0.program_id {
                            assert(owned);
                            assert(self@.accounts[i].data == spec_zero_votes_bytes(
                                pre.accounts[i].data,
                            ));
                            assert(self@.accounts[i].key == pre.accounts[i].key);
                            assert(self@.accounts[i].owner == pre.accounts[i].owner);
                            if (exists|k2: int| 0 <= k2 < k - 1 && aux@[k2] == i) {
                                assert(pre.accounts[i].data == spec_zero_votes_bytes(
                                    s0.accounts[i].data,
                                ));
                                assert(spec_zero_votes_bytes(
                                    spec_zero_votes_bytes(s0.accounts[i].data),
                                ) =~= spec_zero_votes_bytes(s0.accounts[i].data));
                            } else {
                                assert(pre.accounts[i].data == s0.accounts[i].data);
                            }
                        } else {
                            assert(!owned);
                            assert(self@.accounts[i] == pre.accounts[i]);
                        }
                    } else {
                        assert(self@.accounts[i] == pre.accounts[i]);
                        if (exists|k2: int| 0 <= k2 < k && aux@[k2] == i) {
                            let k2 = choose|k2: int| 0 <= k2 < k && aux@[k2] == i;
                            assert(aux@[k - 1] == j as int);
                            assert(k2 != k - 1);
                            assert(exists|k3: int| 0 <= k3 < k - 1 && aux@[k3] == i);
                        }
                    }
                }
            }
        }
        proof {
            assert forall|i: int| 0 <= i < s0.accounts.len() implies self@.accounts[i]
                == zeroed[i] by {
                assert(i < n <= usize::MAX);
                assert((i as usize) as int == i);
                assert(aux@.contains(i as usize) <==> (exists|k2: int|
                    0 <= k2 < aux@.len() && aux@[k2] == i));
            }
            assert(self@.accounts =~= zeroed);
        }
        self.accounts.remove(pi);
        proof {
            let (s1, res) = spec_delete_poll(s0, poll_id, aux@);
            assert(self@.accounts =~= s1.accounts);
            assert(self@ == s1);
            // counting: the reset pass changes no keys, and the removed
            // account is a poll record
            lemma_count_same_kinds(zeroed, s0.accounts);
            lemma_count_remove(zeroed, pi as int);
            // key uniqueness survives the removal
            assert forall|a: int, b: int|
                #![trigger s1.accounts[a].key, s1.accounts[b].key]
                0 <= a < b < s1.accounts.len() implies s1.accounts[a].key != s1.accounts[b].key by {
                let a0 = if a < pi as int {
                    a
                } else {
                    a + 1
                };
                let b0 = if b < pi as int {
                    b
                } else {
                    b + 1
                };
                assert(s1.accounts[a].key == s0.accounts[a0].key);
                assert(s1.accounts[b].key == s0.accounts[b0].key);
            }
            // coherence survives: zeroing an owned record keeps it decodable
            assert forall|a: int|
                0 <= a < s1.accounts.len() && (#[trigger] s1.accounts[a]).owner == s1.program_id
                implies s1.account_coherent(s1.accounts[a]) by {
                let a0 = if a < pi as int {
                    a
                } else {
                    a + 1
                };
                assert(s1.accounts[a] == zeroed[a0]);
                assert(s0.account_coherent(s0.accounts[a0]));
                let orig = s0.accounts[a0];
                if aux@.contains(a0 as usize) && orig.owner == s0.program_id {
                    match orig.key {
                        AccountKeyView::PollRecord(_) => {
                            lemma_poll_encode_of_decode(orig.data);
                            let p = spec_decode_poll(orig.data)->Some_0;
                            lemma_zero_votes_encoded_poll(p);
                            lemma_poll_round_trip(PollView { poll_start: 0, ..p });
                        },
                        AccountKeyView::CandidateRecord(_, _) => {
                            lemma_candidate_encode_of_decode(orig.data);
                            let c = spec_decode_candidate(orig.data)->Some_0;
                            lemma_zero_votes_encoded_candidate(c);
                            lemma_candidate_round_trip(CandidateView { candidate_votes: 0, ..c });
                        },
                        AccountKeyView::External(_) => {},
                    }
                }
            }
            assert(s1.wf());
        }
        Ok(())
    }

    /// The poll record currently stored for `poll_id`, if one exists.
    pub fn poll_record(&self, poll_id: u64) -> (r: Option<Poll>)
        requires
            self@.wf(),
        ensures
            r is Some <==> self@.poll_loaded(poll_id),
            r matches Some(p) ==> p@ == self@.poll_rec(poll_id),
    {
        match self.find_poll_index(poll_id) {
            Some(i) => {
                proof {
                    lemma_key_index_is(self@, AccountKeyView::PollRecord(poll_id), i as int);
                }
                if bytes_eq(&self.accounts[i].owner, &self.program_id) {
                    match decode_poll(&self.accounts[i].data) {
                        Some(p) => Some(p),
                        None => {
                            proof {
                                assert(false);
                            }
                            None
                        },
                    }
                } else {
                    None
                }
            },
            None => None,
        }
    }

    /// The candidate record currently stored for (`candidate_name`,
    /// `poll_id`), if one exists.
    pub fn candidate_record(&self, candidate_name: &Vec<u8>, poll_id: u64) -> (r: Option<Candidate>)
        requires
            self@.wf(),
        ensures
            r is Some <==> self@.candidate_loaded(candidate_name@, poll_id),
            r matches Some(c) ==> c@ == self@.candidate_rec(candidate_name@, poll_id),
    {
        match self.find_candidate_index(candidate_name, poll_id) {
            Some(i) => {
                proof {
                    lemma_key_index_is(
                        self@,
                        AccountKeyView::CandidateRecord(candidate_name@, poll_id),
                        i as int,
                    );
                }
                if bytes_eq(&self.accounts[i].owner, &self.program_id) {
                    match decode_candidate(&self.accounts[i].data) {
                        Some(c) => Some(c),
                        None => {
                            proof {
                                assert(false);
                            }
                            None
                        },
                    }
                } else {
                    None
                }
            },
            None => None,
        }
    }
}

} // verus!
