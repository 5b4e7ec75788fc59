use crate::digest::{sha256, sha256_of};
use crate::merkle_proof::{bytes_eq, proof_reaches, verify_merkle_proof};
use vstd::prelude::*;
use vstd::utf8::encode_utf8;

verus! {

/// An identity: a 32-byte public key.
pub type Pubkey = [u8; 32];

/// Longest title, in UTF-8 bytes.
pub const MAX_TITLE_LEN: usize = 64;

/// Most administrators an election can have.
pub const MAX_ADMINS: usize = 3;

/// Longest encrypted ballot, in bytes.
pub const MAX_ENCRYPTED_VOTE_LEN: usize = 512;

/// Why an operation was refused. A refused operation changes nothing.
#[derive(Debug, Clone, Copy, PartialEq, Eq, Structural)]
pub enum VotingError {
    VotingClosed,
    AlreadyVoted,
    ProofRequired,
    ProofInvalid,
    Unauthorized,
    InvalidInput,
    CapacityExceeded,
}

/// One election: its settings, its administrators and whether it is open.
#[derive(Debug)]
pub struct Election {
    pub authority: Pubkey,
    pub title: String,
    pub is_private: bool,
    pub merkle_root: Option<[u8; 32]>,
    pub public_key: Option<[u8; 32]>,
    pub voter_count: u64,
    pub open: bool,
    pub closed: bool,
    pub admins: Vec<Pubkey>,
}

/// The mark that a voter has voted in an election.
#[derive(Debug, Clone, Copy, PartialEq, Eq)]
pub struct VoterRecord {
    pub election: Pubkey,
    pub voter: Pubkey,
    pub has_voted: bool,
}

/// The encrypted ballot that a voter cast in an election.
#[derive(Debug)]
pub struct VoteData {
    pub election: Pubkey,
    pub voter: Pubkey,
    pub encrypted_vote: Vec<u8>,
}

/// The ballots cast so far: a voter record and a ballot for each vote, in the
/// order in which they were cast.
#[derive(Debug)]
pub struct VoteLedger {
    pub records: Vec<VoterRecord>,
    pub votes: Vec<VoteData>,
}

/// The title's length in UTF-8 bytes.
pub open spec fn title_len(title: Seq<char>) -> nat {
    encode_utf8(title).len()
}

/// The voter count after one more vote; it stays at its largest value.
pub open spec fn counted(n: u64) -> u64 {
    if n < u64::MAX {
        (n + 1) as u64
    } else {
        n
    }
}

impl Election {
    /// The creator is an administrator, no administrator is listed twice, and
    /// the bounds hold.
    pub open spec fn wf(&self) -> bool {
        &&& self.admins@.contains(self.authority)
        &&& self.closed ==> !self.open
        &&& self.admins@.no_duplicates()
        &&& self.admins@.len() <= MAX_ADMINS
        &&& title_len(self.title@) <= MAX_TITLE_LEN
    }

    /// Whether `who` is one of the administrators.
    pub fn is_admin(&self, who: &Pubkey) -> (r: bool)
        ensures
            r == self.admins@.contains(*who),
    {
        let mut i: usize = 0;
        while i < self.admins.len()
            invariant
                0 <= i <= self.admins@.len(),
                forall|j: int| 0 <= j < i ==> self.admins@[j] != *who,
            decreases self.admins@.len() - i,
        {
            if bytes_eq(&self.admins[i], who) {
                assert(self.admins@[i as int] == *who);
                return true;
            }
            i += 1;
        }
        false
    }
}

impl View for VoteLedger {
    type V = Seq<(Pubkey, Pubkey, Seq<u8>)>;

    /// Election, voter and ciphertext of each ballot.
    open spec fn view(&self) -> Seq<(Pubkey, Pubkey, Seq<u8>)> {
        Seq::new(
            self.votes@.len(),
            |i: int| (self.votes@[i].election, self.votes@[i].voter, self.votes@[i].encrypted_vote@),
        )
    }
}

impl VoteLedger {
    /// Records and ballots correspond one to one, and no voter has two
    /// records in one election.
    pub open spec fn wf(&self) -> bool {
        &&& self.records@.len() == self.votes@.len()
        &&& forall|i: int|
            0 <= i < self.records@.len() ==> {
                &&& #[trigger] self.records@[i].election == self.votes@[i].election
                &&& self.records@[i].voter == self.votes@[i].voter
                &&& self.records@[i].has_voted
            }
        &&& forall|i: int, j: int|
            0 <= i < j < self.records@.len() ==> !(#[trigger] self.records@[i].election
                == #[trigger] self.records@[j].election && self.records@[i].voter
                == self.records@[j].voter)
    }

    /// Whether a record shows that `voter` has voted in `election`.
    pub open spec fn voted(&self, election: Pubkey, voter: Pubkey) -> bool {
        exists|i: int|
            0 <= i < self.records@.len() && #[trigger] self.records@[i].election == election
                && self.records@[i].voter == voter
    }

    /// A ledger with no ballot.
    pub fn new() -> (r: VoteLedger)
        ensures
            r.wf(),
            r.records@.len() == 0,
            r@.len() == 0,
    {
        VoteLedger { records: Vec::new(), votes: Vec::new() }
    }

    /// Whether `voter` has voted in `election`.
    pub fn has_voted(&self, election: &Pubkey, voter: &Pubkey) -> (r: bool)
        ensures
            r == self.voted(*election, *voter),
    {
        let mut i: usize = 0;
        while i < self.records.len()
            invariant
                0 <= i <= self.records@.len(),
                forall|j: int|
                    0 <= j < i ==> !(#[trigger] self.records@[j].election == *election
                        && self.records@[j].voter == *voter),
            decreases self.records@.len() - i,
        {
            if bytes_eq(&self.records[i].election, election) && bytes_eq(
                &self.records[i].voter,
                voter,
            ) {
                return true;
            }
            i += 1;
        }
        false
    }
}


/// Creates an election owned by `creator`, closed and without a root, with
/// `creator` as its one administrator. Refused when the title is too long.
pub fn create_election(
    creator: &Pubkey,
    title: String,
    is_private: bool,
    public_key: Option<[u8; 32]>,
) -> (r: Result<Election, VotingError>)
    ensures
        title_len(title@) > MAX_TITLE_LEN ==> r == Err::<Election, VotingError>(
            VotingError::InvalidInput,
        ),
        title_len(title@) <= MAX_TITLE_LEN ==> r is Ok,
        r matches Ok(e) ==> {
            &&& e.authority == *creator
            &&& e.title@ == title@
            &&& e.is_private == is_private
            &&& e.merkle_root is None
            &&& e.public_key == public_key
            &&& e.voter_count == 0
            &&& !e.open
            &&& !e.closed
            &&& e.admins@ == seq![*creator]
            &&& e.wf()
        },
{
    if title.as_str().as_bytes().len() > MAX_TITLE_LEN {
        return Err(VotingError::InvalidInput);
    }
    let mut admins: Vec<Pubkey> = Vec::new();
    admins.push(*creator);
    assert(admins@[0] == *creator);
    Ok(
        Election {
            authority: *creator,
            title,
            is_private,
            merkle_root: None,
            public_key,
            voter_count: 0,
            open: false,
            closed: false,
            admins,
        },
    )
}

/// Opens the election under `merkle_root`, the commitment to its eligible
/// voters. Only an administrator may, and a closed election stays closed.
pub fn start_election(
    election: &mut Election,
    caller: &Pubkey,
    merkle_root: Option<[u8; 32]>,
) -> (r: Result<(), VotingError>)
    ensures
        old(election).admins@.contains(*caller) && old(election).closed ==> r == Err::<
            (),
            VotingError,
        >(VotingError::VotingClosed) && *final(election) == *old(election),
        old(election).admins@.contains(*caller) && !old(election).closed ==> r is Ok
            && *final(election) == (Election {
            merkle_root,
            open: true,
            ..*old(election)
        }),
        !old(election).admins@.contains(*caller) ==> r == Err::<(), VotingError>(
            VotingError::Unauthorized,
        ) && *final(election) == *old(election),
        old(election).wf() ==> final(election).wf(),
{
    if !election.is_admin(caller) {
        return Err(VotingError::Unauthorized);
    }
    if election.closed {
        return Err(VotingError::VotingClosed);
    }
    election.merkle_root = merkle_root;
    election.open = true;
    Ok(())
}

/// Closes the election for good; closing a closed election changes nothing.
/// Only an administrator may.
pub fn close_election(election: &mut Election, caller: &Pubkey) -> (r: Result<(), VotingError>)
    ensures
        old(election).admins@.contains(*caller) ==> r is Ok && *final(election) == (Election {
            open: false,
            closed: true,
            ..*old(election)
        }),
        !old(election).admins@.contains(*caller) ==> r == Err::<(), VotingError>(
            VotingError::Unauthorized,
        ) && *final(election) == *old(election),
        old(election).wf() ==> final(election).wf(),
{
    if !election.is_admin(caller) {
        return Err(VotingError::Unauthorized);
    }
    election.open = false;
    election.closed = true;
    Ok(())
}

/// Makes `new_admin` an administrator. Only an administrator may; one already
/// listed is not listed again, and the list holds at most `MAX_ADMINS`.
pub fn add_admin(election: &mut Election, caller: &Pubkey, new_admin: Pubkey) -> (r: Result<
    (),
    VotingError,
>)
    ensures
        !old(election).admins@.contains(*caller) ==> r == Err::<(), VotingError>(
            VotingError::Unauthorized,
        ),
        old(election).admins@.contains(*caller) && old(election).admins@.contains(new_admin)
            ==> r is Ok,
        old(election).admins@.contains(*caller) && !old(election).admins@.contains(new_admin)
            && old(election).admins@.len() >= MAX_ADMINS ==> r == Err::<(), VotingError>(
            VotingError::CapacityExceeded,
        ),
        old(election).admins@.contains(*caller) && !old(election).admins@.contains(new_admin)
            && old(election).admins@.len() < MAX_ADMINS ==> r is Ok,
        !old(election).admins@.contains(new_admin) && r is Ok ==> final(election).admins@
            == old(election).admins@.push(new_admin),
        old(election).admins@.contains(new_admin) || r is Err ==> final(election).admins
            == old(election).admins,
        final(election).authority == old(election).authority,
        final(election).title == old(election).title,
        final(election).is_private == old(election).is_private,
        final(election).merkle_root == old(election).merkle_root,
        final(election).public_key == old(election).public_key,
        final(election).voter_count == old(election).voter_count,
        final(election).open == old(election).open,
        final(election).closed == old(election).closed,
        old(election).wf() ==> final(election).wf(),
{
    if !election.is_admin(caller) {
        return Err(VotingError::Unauthorized);
    }
    if election.is_admin(&new_admin) {
        return Ok(());
    }
    if election.admins.len() >= MAX_ADMINS {
        return Err(VotingError::CapacityExceeded);
    }
    let ghost before = election.admins@;
    election.admins.push(new_admin);
    assert(election.admins@ == before.push(new_admin));
    assert(forall|x: Pubkey| before.contains(x) ==> election.admins@.contains(x)) by {
        assert forall|x: Pubkey| before.contains(x) implies election.admins@.contains(x) by {
            let j = choose|j: int| 0 <= j < before.len() && before[j] == x;
            assert(election.admins@[j] == x);
        }
    }
    Ok(())
}

/// The outcome of a ballot of `ballot_len` bytes: refused while the election
/// is closed, from a voter who has voted, in a private election without a
/// proof or with one that does not verify, and when the ballot is too long.
pub open spec fn vote_admission(
    open: bool,
    already_voted: bool,
    is_private: bool,
    verdict: Option<bool>,
    ballot_len: nat,
) -> Result<(), VotingError> {
    if !open {
        Err(VotingError::VotingClosed)
    } else if already_voted {
        Err(VotingError::AlreadyVoted)
    } else if is_private && verdict is None {
        Err(VotingError::ProofRequired)
    } else if is_private && verdict == Some(false) {
        Err(VotingError::ProofInvalid)
    } else if ballot_len > MAX_ENCRYPTED_VOTE_LEN {
        Err(VotingError::InvalidInput)
    } else {
        Ok(())
    }
}

/// What a supplied proof shows: `None` without a proof; with one, whether it
/// leads from the digest of `voter` to the root. Without a root no proof
/// verifies.
pub open spec fn proof_verdict(
    root: Option<[u8; 32]>,
    voter: Pubkey,
    supplied: Option<Vec<[u8; 32]>>,
) -> Option<bool> {
    match supplied {
        None => None,
        Some(p) => Some(
            match root {
                None => false,
                Some(r) => proof_reaches(sha256_of(voter@), r@, p@),
            },
        ),
    }
}

/// `e1` and `l1` are `e0` and `l0` after the ballot `ballot` of `voter` in the
/// election `key` was recorded.
pub open spec fn vote_recorded(
    e0: Election,
    l0: VoteLedger,
    e1: Election,
    l1: VoteLedger,
    key: Pubkey,
    voter: Pubkey,
    ballot: Seq<u8>,
) -> bool {
    &&& l1.records@ == l0.records@.push(VoterRecord { election: key, voter, has_voted: true })
    &&& l1@ == l0@.push((key, voter, ballot))
    &&& e1 == (Election { voter_count: counted(e0.voter_count), ..e0 })
}

/// Decides on a ballot of `ballot_len` bytes from `voter` in the election
/// `election_key`, given what the voter's proof showed (`None` without one).
pub fn check_vote(
    election: &Election,
    election_key: &Pubkey,
    ledger: &VoteLedger,
    voter: &Pubkey,
    ballot_len: usize,
    verdict: Option<bool>,
) -> (r: Result<(), VotingError>)
    ensures
        r == vote_admission(
            election.open,
            ledger.voted(*election_key, *voter),
            election.is_private,
            verdict,
            ballot_len as nat,
        ),
{
    if !election.open {
        return Err(VotingError::VotingClosed);
    }
    if ledger.has_voted(election_key, voter) {
        return Err(VotingError::AlreadyVoted);
    }
    if election.is_private {
        match verdict {
            None => {
                return Err(VotingError::ProofRequired);
            },
            Some(false) => {
                return Err(VotingError::ProofInvalid);
            },
            Some(true) => {},
        }
    }
    if ballot_len > MAX_ENCRYPTED_VOTE_LEN {
        return Err(VotingError::InvalidInput);
    }
    Ok(())
}

/// Checks `merkle_proof` for `voter`, whose leaf is the digest of the key,
/// against the election's root.
pub fn verify_voter_proof(
    election: &Election,
    voter: &Pubkey,
    merkle_proof: &Option<Vec<[u8; 32]>>,
) -> (r: Option<bool>)
    ensures
        r == proof_verdict(election.merkle_root, *voter, *merkle_proof),
{
    match merkle_proof {
        None => None,
        Some(siblings) => match &election.merkle_root {
            None => Some(false),
            Some(root) => {
                let leaf = sha256(voter.as_slice());
                Some(verify_merkle_proof(&leaf, root, siblings))
            },
        },
    }
}

/// Casts the encrypted ballot of `voter` in the election `election_key`: when
/// admitted, records that the voter has voted, stores the ballot and counts
/// the voter; when refused, changes nothing.
pub fn cast_vote(
    election: &mut Election,
    election_key: &Pubkey,
    ledger: &mut VoteLedger,
    voter: &Pubkey,
    encrypted_vote: Vec<u8>,
    merkle_proof: Option<Vec<[u8; 32]>>,
) -> (r: Result<(), VotingError>)
    requires
        old(ledger).wf(),
    ensures
        r == vote_admission(
            old(election).open,
            old(ledger).voted(*election_key, *voter),
            old(election).is_private,
            proof_verdict(old(election).merkle_root, *voter, merkle_proof),
            encrypted_vote@.len(),
        ),
        r is Ok ==> vote_recorded(
            *old(election),
            *old(ledger),
            *final(election),
            *final(ledger),
            *election_key,
            *voter,
            encrypted_vote@,
        ),
        r is Ok ==> final(ledger).voted(*election_key, *voter),
        r is Err ==> *final(election) == *old(election) && *final(ledger) == *old(ledger),
        final(ledger).wf(),
        old(election).wf() ==> final(election).wf(),
{
    let verdict = if election.is_private {
        verify_voter_proof(election, voter, &merkle_proof)
    } else {
        None
    };
    let admitted = check_vote(
        election,
        election_key,
        ledger,
        voter,
        encrypted_vote.len(),
        verdict,
    );
    if admitted.is_err() {
        return admitted;
    }
    let ghost l0 = *ledger;
    let record = VoterRecord { election: *election_key, voter: *voter, has_voted: true };
    ledger.records.push(record);
    ledger.votes.push(
        VoteData { election: *election_key, voter: *voter, encrypted_vote: encrypted_vote },
    );
    assert(ledger@ =~= l0@.push((*election_key, *voter, encrypted_vote@)));
    let n = ledger.records.len() - 1;
    assert(ledger.records@[n as int] == record);
    assert(ledger.records@[n as int].election == *election_key);
    assert(ledger.voted(*election_key, *voter));
    if election.voter_count < u64::MAX {
        election.voter_count = election.voter_count + 1;
    }
    Ok(())
}

/// A voter votes once: after a ballot of `voter` was admitted and recorded,
/// every further ballot of theirs in that election is refused as a repeat,
/// whatever proof and ballot come with it.
pub proof fn lemma_second_vote_refused(
    e0: Election,
    l0: VoteLedger,
    e1: Election,
    l1: VoteLedger,
    key: Pubkey,
    voter: Pubkey,
    ballot: Seq<u8>,
    first_verdict: Option<bool>,
    verdict: Option<bool>,
    ballot_len: nat,
)
    requires
        vote_admission(e0.open, l0.voted(key, voter), e0.is_private, first_verdict, ballot.len())
            is Ok,
        vote_recorded(e0, l0, e1, l1, key, voter, ballot),
    ensures
        vote_admission(e1.open, l1.voted(key, voter), e1.is_private, verdict, ballot_len) == Err::<
            (),
            VotingError,
        >(VotingError::AlreadyVoted),
{
    let n = l0.records@.len() as int;
    assert(l1.records@[n].election == key);
}

/// In a private election without a root no ballot is admitted, whatever
/// proof comes with it.
pub proof fn lemma_private_without_root_refused(
    e: Election,
    ledger: VoteLedger,
    key: Pubkey,
    voter: Pubkey,
    supplied: Option<Vec<[u8; 32]>>,
    ballot_len: nat,
)
    requires
        e.is_private,
        e.merkle_root is None,
    ensures
        vote_admission(
            e.open,
            ledger.voted(key, voter),
            e.is_private,
            proof_verdict(e.merkle_root, voter, supplied),
            ballot_len,
        ) is Err,
{
}

/// In an open public election a first ballot within the size bound is
/// admitted without a proof.
pub proof fn lemma_public_vote_needs_no_proof(
    e: Election,
    ledger: VoteLedger,
    key: Pubkey,
    voter: Pubkey,
    ballot_len: nat,
)
    requires
        !e.is_private,
        e.open,
        !ledger.voted(key, voter),
        ballot_len <= MAX_ENCRYPTED_VOTE_LEN,
    ensures
        vote_admission(
            e.open,
            ledger.voted(key, voter),
            e.is_private,
            proof_verdict(e.merkle_root, voter, None),
            ballot_len,
        ) is Ok,
{
}

} // verus!
