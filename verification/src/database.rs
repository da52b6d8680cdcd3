//! The authorization store and the quorum decision.
//!
//! The store holds the three relations the engine consults: hardware-key
//! records, approver identities, and per-(approver, key) vote weights.
//! `authenticate` takes the verification outcome of each candidate
//! signature — produced at the boundary by the external cryptographic
//! toolkit — and decides whether the summed weight of the distinct,
//! payload-matching signers meets the key's threshold.

use vstd::pervasive::VecAdditionalExecFns;
use vstd::prelude::*;

use crate::error::FeroError;
use crate::copy_vec;
use crate::hsm::lemma_contains_push;

verus! {

/// One hardware-custodied key record: the external key id callers name it
/// by, the hardware-side object id, and the vote total required to use it.
#[derive(Clone, Copy, Debug, PartialEq, Eq, Structural)]
pub struct SecretKey {
    pub id: i32,
    pub key_id: u64,
    pub hsm_id: u16,
    pub threshold: i32,
}

/// One registered approver identity, named by its external public-key id.
#[derive(Clone, Copy, Debug, PartialEq, Eq, Structural)]
pub struct UserKey {
    pub id: i32,
    pub key_id: u64,
}

/// The vote weight one approver contributes toward one key's threshold;
/// unique per (approver, key record) pair.
#[derive(Clone, Copy, Debug, PartialEq, Eq, Structural)]
pub struct UserKeyWeight {
    pub user_id: i32,
    pub secret_id: i32,
    pub weight: i32,
}

/// The outcome of verifying one candidate signature blob against the
/// request payload: either cryptographically invalid, or valid with the
/// recovered signed content and the verified signer key ids (a signature
/// counter-signed by several keys carries several ids).
#[derive(Debug)]
pub enum SignatureCheck {
    Invalid,
    Valid { content: Vec<u8>, signer_ids: Vec<u64> },
}

/// The first key record carrying `key_id`, if any.
pub open spec fn find_secret(s: Seq<SecretKey>, key_id: u64) -> Option<SecretKey>
    decreases s.len(),
{
    if s.len() == 0 {
        None
    } else if s[0].key_id == key_id {
        Some(s[0])
    } else {
        find_secret(s.drop_first(), key_id)
    }
}

/// The first approver record carrying `key_id`, if any.
pub open spec fn find_user(s: Seq<UserKey>, key_id: u64) -> Option<UserKey>
    decreases s.len(),
{
    if s.len() == 0 {
        None
    } else if s[0].key_id == key_id {
        Some(s[0])
    } else {
        find_user(s.drop_first(), key_id)
    }
}

/// Whether `w` is the weight row of the given (approver, key record) pair.
pub open spec fn weight_matches(w: UserKeyWeight, user_id: i32, secret_id: i32) -> bool {
    w.user_id == user_id && w.secret_id == secret_id
}

/// The first weight row of the given (approver, key record) pair, if any.
pub open spec fn find_weight(s: Seq<UserKeyWeight>, user_id: i32, secret_id: i32) -> Option<
    UserKeyWeight,
>
    decreases s.len(),
{
    if s.len() == 0 {
        None
    } else if weight_matches(s[0], user_id, secret_id) {
        Some(s[0])
    } else {
        find_weight(s.drop_first(), user_id, secret_id)
    }
}

/// The persisted authorization state: key records, approver identities,
/// and vote weights, each row carrying the id under which the others
/// reference it.
#[derive(Debug)]
pub struct Configuration {
    pub secrets: Vec<SecretKey>,
    pub users: Vec<UserKey>,
    pub weights: Vec<UserKeyWeight>,
}

impl Configuration {
    /// Well-formedness: row ids are assigned in insertion order starting
    /// at 1, external key ids are unique per relation, thresholds and
    /// weights are non-negative, and each (approver, key record) pair has
    /// at most one weight row.
    pub open spec fn wf(self) -> bool {
        &&& forall|i: int|
            0 <= i < self.secrets@.len() ==> (#[trigger] self.secrets@[i]).id == i + 1
        &&& forall|i: int, j: int|
            #![trigger self.secrets@[i], self.secrets@[j]]
            0 <= i < j < self.secrets@.len() ==> self.secrets@[i].key_id
                != self.secrets@[j].key_id
        &&& forall|i: int|
            0 <= i < self.secrets@.len() ==> (#[trigger] self.secrets@[i]).threshold >= 0
        &&& forall|i: int| 0 <= i < self.users@.len() ==> (#[trigger] self.users@[i]).id == i + 1
        &&& forall|i: int, j: int|
            #![trigger self.users@[i], self.users@[j]]
            0 <= i < j < self.users@.len() ==> self.users@[i].key_id != self.users@[j].key_id
        &&& forall|i: int|
            0 <= i < self.weights@.len() ==> (#[trigger] self.weights@[i]).weight >= 0
        &&& forall|i: int, j: int|
            #![trigger self.weights@[i], self.weights@[j]]
            0 <= i < j < self.weights@.len() ==> !(self.weights@[i].user_id
                == self.weights@[j].user_id && self.weights@[i].secret_id
                == self.weights@[j].secret_id)
    }
}

/// Whether this verification outcome is valid and recovered exactly the
/// expected payload bytes.
pub open spec fn check_matches(c: SignatureCheck, payload: Seq<u8>) -> bool {
    match c {
        SignatureCheck::Valid { content, .. } => content@ == payload,
        SignatureCheck::Invalid => false,
    }
}

/// The signer ids a verification outcome carries (none when invalid).
pub open spec fn check_ids(c: SignatureCheck) -> Seq<u64> {
    match c {
        SignatureCheck::Valid { signer_ids, .. } => signer_ids@,
        SignatureCheck::Invalid => Seq::empty(),
    }
}

/// Whether any candidate signature failed cryptographic verification.
pub open spec fn has_invalid(checks: Seq<SignatureCheck>) -> bool {
    exists|i: int| 0 <= i < checks.len() && (#[trigger] checks[i]) is Invalid
}

/// All signer ids of the accepted, payload-matching outcomes, in
/// submission order, duplicates included.
pub open spec fn matching_ids(checks: Seq<SignatureCheck>, payload: Seq<u8>) -> Seq<u64>
    decreases checks.len(),
{
    if checks.len() == 0 {
        Seq::empty()
    } else {
        matching_ids(checks.drop_last(), payload) + if check_matches(checks.last(), payload) {
            check_ids(checks.last())
        } else {
            Seq::empty()
        }
    }
}

/// The ids of `ids` with every repeated occurrence removed, keeping the
/// first occurrence of each.
pub open spec fn dedup(ids: Seq<u64>) -> Seq<u64>
    decreases ids.len(),
{
    if ids.len() == 0 {
        Seq::empty()
    } else if ids.drop_last().contains(ids.last()) {
        dedup(ids.drop_last())
    } else {
        dedup(ids.drop_last()).push(ids.last())
    }
}

/// The weight one signer id contributes toward the key record
/// `secret_id`: zero when the signer is unregistered or carries no weight
/// row for that key.
pub open spec fn id_weight(
    users: Seq<UserKey>,
    weights: Seq<UserKeyWeight>,
    secret_id: i32,
    id: u64,
) -> int {
    match find_user(users, id) {
        Some(u) => match find_weight(weights, u.id, secret_id) {
            Some(w) => w.weight as int,
            None => 0,
        },
        None => 0,
    }
}

/// The sum of the contributions of `ids`, in order.
pub open spec fn sum_id_weights(
    users: Seq<UserKey>,
    weights: Seq<UserKeyWeight>,
    secret_id: i32,
    ids: Seq<u64>,
) -> int
    decreases ids.len(),
{
    if ids.len() == 0 {
        0
    } else {
        sum_id_weights(users, weights, secret_id, ids.drop_last()) + id_weight(
            users,
            weights,
            secret_id,
            ids.last(),
        )
    }
}

/// The total approving weight of a candidate-signature list: the sum of
/// the weights of the distinct signers whose signatures verified and
/// recovered exactly `payload`.
pub open spec fn quorum_weight(
    users: Seq<UserKey>,
    weights: Seq<UserKeyWeight>,
    secret_id: i32,
    checks: Seq<SignatureCheck>,
    payload: Seq<u8>,
) -> int {
    sum_id_weights(users, weights, secret_id, dedup(matching_ids(checks, payload)))
}

/// The authentication decision: the key record on success, and the exact
/// typed failure otherwise. A missing key record is reported first; one
/// cryptographically invalid signature then aborts the whole attempt;
/// otherwise the distinct payload-matching signers' summed weight is
/// compared against the record's threshold (meeting it exactly
/// authorizes).
pub open spec fn authenticate_decision(
    cfg: Configuration,
    secret_key_id: u64,
    payload: Seq<u8>,
    checks: Seq<SignatureCheck>,
) -> Result<SecretKey, FeroError> {
    match find_secret(cfg.secrets@, secret_key_id) {
        None => Err(FeroError::NotFound),
        Some(s) => if has_invalid(checks) {
            Err(FeroError::VerificationFailure)
        } else if quorum_weight(cfg.users@, cfg.weights@, s.id, checks, payload) >= s.threshold {
            Ok(s)
        } else {
            Err(FeroError::QuorumNotMet)
        },
    }
}

/// The store after registering `key_id` as an approver: unchanged when
/// already present, otherwise extended by one fresh row.
pub open spec fn upsert_users(users: Seq<UserKey>, key_id: u64) -> Seq<UserKey> {
    match find_user(users, key_id) {
        Some(_) => users,
        None => users.push(UserKey { id: (users.len() + 1) as i32, key_id }),
    }
}

/// The approver row that registering `key_id` yields: the existing row,
/// or the fresh one.
pub open spec fn upserted_user(users: Seq<UserKey>, key_id: u64) -> UserKey {
    match find_user(users, key_id) {
        Some(u) => u,
        None => UserKey { id: (users.len() + 1) as i32, key_id },
    }
}

/// The weight relation after an upsert: the first row of the pair updated
/// in place, or one row appended when the pair had none.
pub open spec fn upsert_weights(
    ws: Seq<UserKeyWeight>,
    user_id: i32,
    secret_id: i32,
    weight: i32,
) -> Seq<UserKeyWeight>
    decreases ws.len(),
{
    if ws.len() == 0 {
        seq![UserKeyWeight { user_id, secret_id, weight }]
    } else if weight_matches(ws[0], user_id, secret_id) {
        seq![UserKeyWeight { user_id, secret_id, weight }] + ws.drop_first()
    } else {
        seq![ws[0]] + upsert_weights(ws.drop_first(), user_id, secret_id, weight)
    }
}

/// An ephemeral privileged session, created only by a successful quorum
/// decision and bound to the key it authorized.
#[derive(Debug)]
pub struct AuthenticatedConnection {
    pub secret_key: u64,
    pub connection: Configuration,
}

fn bytes_equal(a: &Vec<u8>, b: &Vec<u8>) -> (r: bool)
    ensures
        r == (a@ == b@),
{
    if a.len() != b.len() {
        return false;
    }
    let mut i: usize = 0;
    while i < a.len()
        invariant
            i <= a@.len(),
            a@.len() == b@.len(),
            forall|j: int| 0 <= j < i ==> a@[j] == b@[j],
        decreases a@.len() - i,
    {
        if a[i] != b[i] {
            return false;
        }
        i = i + 1;
    }
    proof {
        assert(a@ =~= b@);
    }
    true
}

fn contains_u64(v: &Vec<u64>, x: u64) -> (r: bool)
    ensures
        r == v@.contains(x),
{
    let mut i: usize = 0;
    while i < v.len()
        invariant
            i <= v@.len(),
            forall|j: int| 0 <= j < i ==> v@[j] != x,
        decreases v@.len() - i,
    {
        if v[i] == x {
            return true;
        }
        i = i + 1;
    }
    false
}

/// Membership survives first-occurrence deduplication, both ways.
pub proof fn lemma_dedup_contains(ids: Seq<u64>, x: u64)
    ensures
        dedup(ids).contains(x) <==> ids.contains(x),
    decreases ids.len(),
{
    if ids.len() == 0 {
    } else {
        lemma_dedup_contains(ids.drop_last(), x);
        lemma_contains_push(ids.drop_last(), ids.last(), x);
        assert(ids.drop_last().push(ids.last()) =~= ids);
        if !ids.drop_last().contains(ids.last()) {
            lemma_contains_push(dedup(ids.drop_last()), ids.last(), x);
        }
    }
}

/// Deduplication absorbs an id already seen and appends a fresh one.
pub proof fn lemma_dedup_push(ids: Seq<u64>, x: u64)
    ensures
        dedup(ids.push(x)) == if ids.contains(x) {
            dedup(ids)
        } else {
            dedup(ids).push(x)
        },
{
    assert(ids.push(x).drop_last() =~= ids);
    assert(ids.push(x).last() == x);
}

impl Configuration {
    /// An empty store: no key records, no approvers, no weights.
    pub fn new() -> (r: Configuration)
        ensures
            r.wf(),
            r.secrets@ == Seq::<SecretKey>::empty(),
            r.users@ == Seq::<UserKey>::empty(),
            r.weights@ == Seq::<UserKeyWeight>::empty(),
    {
        Configuration { secrets: Vec::new(), users: Vec::new(), weights: Vec::new() }
    }

    fn find_secret_exec(&self, key_id: u64) -> (r: Option<SecretKey>)
        ensures
            r == find_secret(self.secrets@, key_id),
            r is None ==> forall|j: int|
                0 <= j < self.secrets@.len() ==> (#[trigger] self.secrets@[j]).key_id != key_id,
    {
        let mut i: usize = 0;
        proof {
            assert(self.secrets@.skip(0) =~= self.secrets@);
        }
        while i < self.secrets.len()
            invariant
                i <= self.secrets@.len(),
                find_secret(self.secrets@, key_id) == find_secret(
                    self.secrets@.skip(i as int),
                    key_id,
                ),
                forall|j: int|
                    0 <= j < i ==> (#[trigger] self.secrets@[j]).key_id != key_id,
            decreases self.secrets@.len() - i,
        {
            proof {
                assert(self.secrets@.skip(i as int)[0] == self.secrets@[i as int]);
                assert(self.secrets@.skip(i as int).drop_first() =~= self.secrets@.skip(
                    i as int + 1,
                ));
            }
            if self.secrets[i].key_id == key_id {
                return Some(self.secrets[i]);
            }
            i = i + 1;
        }
        proof {
            assert(self.secrets@.skip(i as int).len() == 0);
        }
        None
    }

    fn find_user_exec(&self, key_id: u64) -> (r: Option<UserKey>)
        ensures
            r == find_user(self.users@, key_id),
            r is None ==> forall|j: int|
                0 <= j < self.users@.len() ==> (#[trigger] self.users@[j]).key_id != key_id,
    {
        let mut i: usize = 0;
        proof {
            assert(self.users@.skip(0) =~= self.users@);
        }
        while i < self.users.len()
            invariant
                i <= self.users@.len(),
                find_user(self.users@, key_id) == find_user(self.users@.skip(i as int), key_id),
                forall|j: int| 0 <= j < i ==> (#[trigger] self.users@[j]).key_id != key_id,
            decreases self.users@.len() - i,
        {
            proof {
                assert(self.users@.skip(i as int)[0] == self.users@[i as int]);
                assert(self.users@.skip(i as int).drop_first() =~= self.users@.skip(i as int + 1));
            }
            if self.users[i].key_id == key_id {
                return Some(self.users[i]);
            }
            i = i + 1;
        }
        proof {
            assert(self.users@.skip(i as int).len() == 0);
        }
        None
    }

    fn find_weight_exec(&self, user_id: i32, secret_id: i32) -> (r: Option<UserKeyWeight>)
        ensures
            r == find_weight(self.weights@, user_id, secret_id),
            r is Some ==> exists|j: int|
                0 <= j < self.weights@.len() && self.weights@[j] == r->0,
    {
        let mut i: usize = 0;
        proof {
            assert(self.weights@.skip(0) =~= self.weights@);
        }
        while i < self.weights.len()
            invariant
                i <= self.weights@.len(),
                find_weight(self.weights@, user_id, secret_id) == find_weight(
                    self.weights@.skip(i as int),
                    user_id,
                    secret_id,
                ),
            decreases self.weights@.len() - i,
        {
            proof {
                assert(self.weights@.skip(i as int)[0] == self.weights@[i as int]);
                assert(self.weights@.skip(i as int).drop_first() =~= self.weights@.skip(
                    i as int + 1,
                ));
            }
            if self.weights[i].user_id == user_id && self.weights[i].secret_id == secret_id {
                return Some(self.weights[i]);
            }
            i = i + 1;
        }
        proof {
            assert(self.weights@.skip(i as int).len() == 0);
        }
        None
    }

    fn find_weight_index(&self, user_id: i32, secret_id: i32) -> (r: Option<usize>)
        ensures
            match r {
                Some(i) => i < self.weights@.len() && weight_matches(
                    self.weights@[i as int],
                    user_id,
                    secret_id,
                ) && forall|j: int|
                    0 <= j < i ==> !weight_matches(
                        #[trigger] self.weights@[j],
                        user_id,
                        secret_id,
                    ),
                None => forall|j: int|
                    0 <= j < self.weights@.len() ==> !weight_matches(
                        #[trigger] self.weights@[j],
                        user_id,
                        secret_id,
                    ),
            },
    {
        let mut i: usize = 0;
        while i < self.weights.len()
            invariant
                i <= self.weights@.len(),
                forall|j: int|
                    0 <= j < i ==> !weight_matches(
                        #[trigger] self.weights@[j],
                        user_id,
                        secret_id,
                    ),
            decreases self.weights@.len() - i,
        {
            if self.weights[i].user_id == user_id && self.weights[i].secret_id == secret_id {
                return Some(i);
            }
            i = i + 1;
        }
        None
    }

    fn duplicate(&self) -> (r: Configuration)
        ensures
            r.secrets@ == self.secrets@,
            r.users@ == self.users@,
            r.weights@ == self.weights@,
    {
        Configuration {
            secrets: copy_vec(&self.secrets),
            users: copy_vec(&self.users),
            weights: copy_vec(&self.weights),
        }
    }

    /// Register a new key record. A record whose external key id is
    /// already taken is refused as a constraint violation.
    pub fn insert_secret_key(&mut self, hsm_id: u16, key_id: u64, threshold: i32) -> (r: Result<
        (),
        FeroError,
    >)
        requires
            old(self).wf(),
            threshold >= 0,
            old(self).secrets@.len() < 0x7fff_ffff,
        ensures
            final(self).wf(),
            final(self).users@ == old(self).users@,
            final(self).weights@ == old(self).weights@,
            match r {
                Ok(()) => find_secret(old(self).secrets@, key_id) is None
                    && final(self).secrets@ == old(self).secrets@.push(
                    (SecretKey {
                        id: (old(self).secrets@.len() + 1) as i32,
                        key_id,
                        hsm_id,
                        threshold,
                    }),
                ),
                Err(e) => e == FeroError::StorageFailure && find_secret(
                    old(self).secrets@,
                    key_id,
                ) is Some && final(self).secrets@ == old(self).secrets@,
            },
    {
        match self.find_secret_exec(key_id) {
            Some(_) => Err(FeroError::StorageFailure),
            None => {
                let id: i32 = (self.secrets.len() + 1) as i32;
                self.secrets.push(SecretKey { id, key_id, hsm_id, threshold });
                Ok(())
            },
        }
    }

    /// The quorum decision. Looks up the claimed key record, walks the
    /// candidate verification outcomes in order — one invalid signature
    /// aborts the attempt, an accepted signature over different content
    /// is discarded silently — sums the weights of the distinct
    /// payload-matching signers, and compares against the record's
    /// threshold. Success yields a privileged session bound to the key,
    /// together with the authorized payload as confirmation.
    #[verifier::loop_isolation(false)]
    pub fn authenticate(
        &self,
        secret_key_id: u64,
        payload: &Vec<u8>,
        checks: &Vec<SignatureCheck>,
    ) -> (r: Result<(AuthenticatedConnection, Vec<u8>), FeroError>)
        requires
            self.wf(),
        ensures
            match r {
                Ok(sp) => {
                    &&& authenticate_decision(*self, secret_key_id, payload@, checks@) is Ok
                    &&& sp.0.secret_key == secret_key_id
                    &&& sp.0.connection.secrets@ == self.secrets@
                    &&& sp.0.connection.users@ == self.users@
                    &&& sp.0.connection.weights@ == self.weights@
                    &&& sp.1@ == payload@
                },
                Err(e) => authenticate_decision(*self, secret_key_id, payload@, checks@)
                    == Err::<SecretKey, FeroError>(e),
            },
    {
        let secret = match self.find_secret_exec(secret_key_id) {
            Some(s) => s,
            None => {
                return Err(FeroError::NotFound);
            },
        };
        let mut ids: Vec<u64> = Vec::new();
        let mut ci: usize = 0;
        proof {
            assert(checks@.take(0) =~= Seq::<SignatureCheck>::empty());
        }
        while ci < checks.len()
            invariant
                ci <= checks@.len(),
                forall|i: int| 0 <= i < ci ==> !((#[trigger] checks@[i]) is Invalid),
                ids@ == dedup(matching_ids(checks@.take(ci as int), payload@)),
            decreases checks@.len() - ci,
        {
            proof {
                assert(checks@.take(ci as int + 1).drop_last() =~= checks@.take(ci as int));
                assert(checks@.take(ci as int + 1).last() == checks@[ci as int]);
            }
            match &checks[ci] {
                SignatureCheck::Invalid => {
                    proof {
                        assert(checks@[ci as int] is Invalid);
                        assert(has_invalid(checks@));
                    }
                    return Err(FeroError::VerificationFailure);
                },
                SignatureCheck::Valid { content, signer_ids } => {
                    if bytes_equal(content, payload) {
                        let ghost base = matching_ids(checks@.take(ci as int), payload@);
                        let mut j: usize = 0;
                        proof {
                            assert(base + signer_ids@.take(0) =~= base);
                        }
                        while j < signer_ids.len()
                            invariant
                                j <= signer_ids@.len(),
                                ids@ == dedup(base + signer_ids@.take(j as int)),
                            decreases signer_ids@.len() - j,
                        {
                            let id: u64 = signer_ids[j];
                            proof {
                                assert(base + signer_ids@.take(j as int + 1) =~= (base
                                    + signer_ids@.take(j as int)).push(signer_ids@[j as int]));
                                lemma_dedup_push(
                                    base + signer_ids@.take(j as int),
                                    signer_ids@[j as int],
                                );
                                lemma_dedup_contains(
                                    base + signer_ids@.take(j as int),
                                    signer_ids@[j as int],
                                );
                            }
                            if !contains_u64(&ids, id) {
                                ids.push(id);
                            }
                            j = j + 1;
                        }
                        proof {
                            assert(signer_ids@.take(signer_ids@.len() as int) =~= signer_ids@);
                            assert(check_matches(checks@[ci as int], payload@));
                            assert(check_ids(checks@[ci as int]) == signer_ids@);
                            assert(matching_ids(checks@.take(ci as int + 1), payload@) == base
                                + signer_ids@);
                        }
                    } else {
                        proof {
                            assert(!check_matches(checks@[ci as int], payload@));
                            assert(matching_ids(checks@.take(ci as int + 1), payload@) =~= matching_ids(
                                checks@.take(ci as int),
                                payload@,
                            ));
                        }
                    }
                },
            }
            ci = ci + 1;
        }
        proof {
            assert(checks@.take(checks@.len() as int) =~= checks@);
            assert(!has_invalid(checks@));
        }
        let mut total: i128 = 0;
        let mut k: usize = 0;
        proof {
            assert(ids@.take(0) =~= Seq::<u64>::empty());
        }
        while k < ids.len()
            invariant
                k <= ids@.len(),
                total == sum_id_weights(
                    self.users@,
                    self.weights@,
                    secret.id,
                    ids@.take(k as int),
                ),
                0 <= total <= (k as int) * 0x7fff_ffff,
            decreases ids@.len() - k,
        {
            proof {
                assert(ids@.take(k as int + 1).drop_last() =~= ids@.take(k as int));
                assert(ids@.take(k as int + 1).last() == ids@[k as int]);
            }
            match self.find_user_exec(ids[k]) {
                Some(user) => {
                    match self.find_weight_exec(user.id, secret.id) {
                        Some(w) => {
                            total = total + w.weight as i128;
                        },
                        None => {},
                    }
                },
                None => {},
            }
            k = k + 1;
        }
        proof {
            assert(ids@.take(ids@.len() as int) =~= ids@);
        }
        if total >= secret.threshold as i128 {
            let conn = AuthenticatedConnection {
                secret_key: secret_key_id,
                connection: self.duplicate(),
            };
            let echo = copy_vec(payload);
            Ok((conn, echo))
        } else {
            Err(FeroError::QuorumNotMet)
        }
    }
}

impl AuthenticatedConnection {
    /// Re-read the bound key record and return its hardware object id;
    /// the record may legitimately have vanished since authorization.
    pub fn get_hsm_key_id(&self) -> (r: Result<u16, FeroError>)
        ensures
            match r {
                Ok(h) => find_secret(self.connection.secrets@, self.secret_key) is Some && h
                    == find_secret(self.connection.secrets@, self.secret_key)->0.hsm_id,
                Err(e) => e == FeroError::NotFound && find_secret(
                    self.connection.secrets@,
                    self.secret_key,
                ) is None,
            },
    {
        match self.connection.find_secret_exec(self.secret_key) {
            Some(s) => Ok(s.hsm_id),
            None => Err(FeroError::NotFound),
        }
    }

    /// Register an approver key, or fetch the row it already has; the
    /// stored relation gains at most one fresh row.
    pub fn upsert_user_key(&mut self, key_id: u64) -> (r: Result<UserKey, FeroError>)
        requires
            old(self).connection.wf(),
            old(self).connection.users@.len() < 0x7fff_ffff,
        ensures
            final(self).connection.wf(),
            final(self).secret_key == old(self).secret_key,
            final(self).connection.secrets@ == old(self).connection.secrets@,
            final(self).connection.weights@ == old(self).connection.weights@,
            final(self).connection.users@ == upsert_users(old(self).connection.users@, key_id),
            r == Ok::<UserKey, FeroError>(upserted_user(old(self).connection.users@, key_id)),
    {
        match self.connection.find_user_exec(key_id) {
            Some(u) => Ok(u),
            None => {
                let id: i32 = (self.connection.users.len() + 1) as i32;
                let nu = UserKey { id, key_id };
                self.connection.users.push(nu);
                Ok(nu)
            },
        }
    }

    /// Set the weight an approver contributes toward a key: the key
    /// record must exist; the (approver, key) pair's row is updated in
    /// place or created.
    pub fn upsert_user_key_weight(&mut self, secret_key_id: u64, user: UserKey, weight: i32) -> (r:
        Result<(), FeroError>)
        requires
            old(self).connection.wf(),
            weight >= 0,
        ensures
            final(self).connection.wf(),
            final(self).secret_key == old(self).secret_key,
            final(self).connection.secrets@ == old(self).connection.secrets@,
            final(self).connection.users@ == old(self).connection.users@,
            match r {
                Ok(()) => find_secret(old(self).connection.secrets@, secret_key_id) is Some
                    && final(self).connection.weights@ == upsert_weights(
                    old(self).connection.weights@,
                    user.id,
                    find_secret(old(self).connection.secrets@, secret_key_id)->0.id,
                    weight,
                ),
                Err(e) => e == FeroError::NotFound && find_secret(
                    old(self).connection.secrets@,
                    secret_key_id,
                ) is None && final(self).connection.weights@ == old(self).connection.weights@,
            },
    {
        let secret = match self.connection.find_secret_exec(secret_key_id) {
            Some(s) => s,
            None => {
                return Err(FeroError::NotFound);
            },
        };
        let row = UserKeyWeight { user_id: user.id, secret_id: secret.id, weight };
        let ghost ws = self.connection.weights@;
        match self.connection.find_weight_index(user.id, secret.id) {
            Some(i) => {
                self.connection.weights.set(i, row);
                proof {
                    lemma_upsert_weights_prefix(ws, user.id, secret.id, weight, i as int);
                    assert(ws.skip(i as int)[0] == ws[i as int]);
                    assert(ws.skip(i as int).drop_first() =~= ws.skip(i as int + 1));
                    assert(upsert_weights(ws.skip(i as int), user.id, secret.id, weight)
                        == seq![row] + ws.skip(i as int + 1));
                    assert(ws.take(i as int) + (seq![row] + ws.skip(i as int + 1)) =~= ws.update(
                        i as int,
                        row,
                    ));
                }
            },
            None => {
                self.connection.weights.push(row);
                proof {
                    lemma_upsert_weights_prefix(
                        ws,
                        user.id,
                        secret.id,
                        weight,
                        ws.len() as int,
                    );
                    assert(ws.skip(ws.len() as int).len() == 0);
                    assert(upsert_weights(ws.skip(ws.len() as int), user.id, secret.id, weight)
                        =~= seq![row]);
                    assert(ws.take(ws.len() as int) + seq![row] =~= ws.push(row));
                }
            },
        }
        Ok(())
    }

    /// Update the bound vote total a key record requires; the record must
    /// exist.
    pub fn set_secret_key_threshold(&mut self, secret_key_id: u64, threshold: i32) -> (r: Result<
        (),
        FeroError,
    >)
        requires
            old(self).connection.wf(),
            threshold >= 0,
        ensures
            final(self).connection.wf(),
            final(self).secret_key == old(self).secret_key,
            final(self).connection.users@ == old(self).connection.users@,
            final(self).connection.weights@ == old(self).connection.weights@,
            match r {
                Ok(()) => exists|i: int|
                    0 <= i < old(self).connection.secrets@.len()
                    && (#[trigger] old(self).connection.secrets@[i]).key_id == secret_key_id
                    && final(self).connection.secrets@ == old(self).connection.secrets@.update(
                        i,
                        (SecretKey { threshold, ..old(self).connection.secrets@[i] }),
                    ),
                Err(e) => e == FeroError::NotFound && find_secret(
                    old(self).connection.secrets@,
                    secret_key_id,
                ) is None && final(self).connection.secrets@ == old(self).connection.secrets@,
            },
    {
        let mut i: usize = 0;
        while i < self.connection.secrets.len()
            invariant
                i <= self.connection.secrets@.len(),
                threshold >= 0,
                old(self).connection.wf(),
                self.connection == old(self).connection,
                self.secret_key == old(self).secret_key,
                forall|j: int|
                    0 <= j < i ==> (#[trigger] self.connection.secrets@[j]).key_id
                        != secret_key_id,
            decreases self.connection.secrets@.len() - i,
        {
            if self.connection.secrets[i].key_id == secret_key_id {
                let s = self.connection.secrets[i];
                self.connection.secrets.set(
                    i,
                    SecretKey { id: s.id, key_id: s.key_id, hsm_id: s.hsm_id, threshold },
                );
                proof {
                    let osq = old(self).connection.secrets@;
                    let nsq = self.connection.secrets@;
                    assert forall|j: int| 0 <= j < nsq.len() implies (#[trigger] nsq[j]).id == j
                        + 1 by {
                        if j != i {
                            assert(nsq[j] == osq[j]);
                        }
                    }
                    assert forall|a: int, b: int|
                        #![trigger nsq[a], nsq[b]]
                        0 <= a < b < nsq.len() implies nsq[a].key_id != nsq[b].key_id by {
                        assert(nsq[a].key_id == osq[a].key_id);
                        assert(nsq[b].key_id == osq[b].key_id);
                    }
                    assert forall|j: int| 0 <= j < nsq.len() implies (#[trigger] nsq[j]).threshold
                        >= 0 by {
                        if j != i {
                            assert(nsq[j] == osq[j]);
                        }
                    }
                }
                return Ok(());
            }
            i = i + 1;
        }
        proof {
            lemma_find_secret_none(self.connection.secrets@, secret_key_id);
        }
        Err(FeroError::NotFound)
    }
}

proof fn lemma_find_secret_none(s: Seq<SecretKey>, key_id: u64)
    requires
        forall|j: int| 0 <= j < s.len() ==> (#[trigger] s[j]).key_id != key_id,
    ensures
        find_secret(s, key_id) is None,
    decreases s.len(),
{
    if s.len() == 0 {
    } else {
        assert(forall|j: int|
            0 <= j < s.drop_first().len() ==> (#[trigger] s.drop_first()[j]).key_id != key_id);
        lemma_find_secret_none(s.drop_first(), key_id);
    }
}

proof fn lemma_upsert_weights_prefix(
    ws: Seq<UserKeyWeight>,
    user_id: i32,
    secret_id: i32,
    weight: i32,
    i: int,
)
    requires
        0 <= i <= ws.len(),
        forall|j: int| 0 <= j < i ==> !weight_matches(#[trigger] ws[j], user_id, secret_id),
    ensures
        upsert_weights(ws, user_id, secret_id, weight) == ws.take(i) + upsert_weights(
            ws.skip(i),
            user_id,
            secret_id,
            weight,
        ),
    decreases i,
{
    if i == 0 {
        assert(ws.skip(0) =~= ws);
        assert(ws.take(0) + upsert_weights(ws, user_id, secret_id, weight) =~= upsert_weights(
            ws,
            user_id,
            secret_id,
            weight,
        ));
    } else {
        lemma_upsert_weights_prefix(ws.drop_first(), user_id, secret_id, weight, i - 1);
        assert(ws.drop_first().skip(i - 1) =~= ws.skip(i));
        assert(seq![ws[0]] + (ws.drop_first().take(i - 1) + upsert_weights(
            ws.skip(i),
            user_id,
            secret_id,
            weight,
        )) =~= ws.take(i) + upsert_weights(ws.skip(i), user_id, secret_id, weight));
    }
}

proof fn lemma_find_user_push(users: Seq<UserKey>, u: UserKey, key_id: u64)
    ensures
        find_user(users.push(u), key_id) == if find_user(users, key_id) is Some {
            find_user(users, key_id)
        } else if u.key_id == key_id {
            Some(u)
        } else {
            None::<UserKey>
        },
    decreases users.len(),
{
    if users.len() == 0 {
        assert(users.push(u)[0] == u);
        assert(users.push(u).drop_first() =~= Seq::<UserKey>::empty());
    } else {
        assert(users.push(u)[0] == users[0]);
        assert(users.push(u).drop_first() =~= users.drop_first().push(u));
        lemma_find_user_push(users.drop_first(), u, key_id);
    }
}

/// Registering the same approver key twice stores exactly what one
/// registration stores, and returns the same row: the upsert is
/// idempotent.
pub proof fn lemma_upsert_approver_idempotent(users: Seq<UserKey>, key_id: u64)
    ensures
        upsert_users(upsert_users(users, key_id), key_id) == upsert_users(users, key_id),
        upserted_user(upsert_users(users, key_id), key_id) == upserted_user(users, key_id),
{
    if find_user(users, key_id) is None {
        let nu = UserKey { id: (users.len() + 1) as i32, key_id };
        lemma_find_user_push(users, nu, key_id);
    }
}

/// Upserting the same weight row twice stores exactly what one upsert
/// stores: the upsert is idempotent and never duplicates the pair's row.
pub proof fn lemma_upsert_weight_idempotent(
    ws: Seq<UserKeyWeight>,
    user_id: i32,
    secret_id: i32,
    weight: i32,
)
    ensures
        upsert_weights(upsert_weights(ws, user_id, secret_id, weight), user_id, secret_id, weight)
            == upsert_weights(ws, user_id, secret_id, weight),
    decreases ws.len(),
{
    let row = UserKeyWeight { user_id, secret_id, weight };
    if ws.len() == 0 {
        assert(seq![row].drop_first() =~= Seq::<UserKeyWeight>::empty());
        assert(upsert_weights(seq![row], user_id, secret_id, weight) =~= seq![row]);
    } else if weight_matches(ws[0], user_id, secret_id) {
        let r1 = seq![row] + ws.drop_first();
        assert(r1[0] == row);
        assert(r1.drop_first() =~= ws.drop_first());
        assert(upsert_weights(r1, user_id, secret_id, weight) =~= r1);
    } else {
        let r1 = seq![ws[0]] + upsert_weights(ws.drop_first(), user_id, secret_id, weight);
        assert(r1[0] == ws[0]);
        assert(r1.drop_first() =~= upsert_weights(ws.drop_first(), user_id, secret_id, weight));
        lemma_upsert_weight_idempotent(ws.drop_first(), user_id, secret_id, weight);
    }
}

proof fn lemma_matching_ids_push(checks: Seq<SignatureCheck>, payload: Seq<u8>, c: SignatureCheck)
    ensures
        matching_ids(checks.push(c), payload) == matching_ids(checks, payload) + if check_matches(
            c,
            payload,
        ) {
            check_ids(c)
        } else {
            Seq::<u64>::empty()
        },
{
    assert(checks.push(c).drop_last() =~= checks);
    assert(checks.push(c).last() == c);
}

proof fn lemma_has_invalid_push(checks: Seq<SignatureCheck>, c: SignatureCheck)
    ensures
        has_invalid(checks.push(c)) <==> (has_invalid(checks) || c is Invalid),
{
    if has_invalid(checks) {
        let i = choose|i: int| 0 <= i < checks.len() && (#[trigger] checks[i]) is Invalid;
        assert(checks.push(c)[i] is Invalid);
    }
    if c is Invalid {
        assert(checks.push(c)[checks.len() as int] is Invalid);
    }
    if has_invalid(checks.push(c)) {
        let i = choose|i: int|
            0 <= i < checks.push(c).len() && (#[trigger] checks.push(c)[i]) is Invalid;
        if i < checks.len() {
            assert(checks[i] is Invalid);
        }
    }
}

proof fn lemma_dedup_append_contained(a: Seq<u64>, b: Seq<u64>)
    requires
        forall|i: int| 0 <= i < b.len() ==> a.contains(#[trigger] b[i]),
    ensures
        dedup(a + b) == dedup(a),
    decreases b.len(),
{
    if b.len() == 0 {
        assert(a + b =~= a);
    } else {
        assert(a + b =~= (a + b.drop_last()).push(b.last()));
        assert(a.contains(b[b.len() - 1]));
        let w = choose|w: int| 0 <= w < a.len() && a[w] == b.last();
        assert((a + b.drop_last())[w] == b.last());
        assert((a + b.drop_last()).contains(b.last()));
        lemma_dedup_push(a + b.drop_last(), b.last());
        assert(forall|i: int|
            0 <= i < b.drop_last().len() ==> a.contains(#[trigger] b.drop_last()[i]));
        lemma_dedup_append_contained(a, b.drop_last());
    }
}

/// One more accepted signature whose signers were all already counted
/// changes nothing about the decision: repeated signatures from the same
/// approver, and an approver reached through several accepted
/// signatures, contribute that approver's weight exactly once.
pub proof fn lemma_duplicate_signature_counts_once(
    cfg: Configuration,
    secret_key_id: u64,
    payload: Seq<u8>,
    checks: Seq<SignatureCheck>,
    c: SignatureCheck,
)
    requires
        check_matches(c, payload),
        forall|i: int|
            0 <= i < check_ids(c).len() ==> matching_ids(checks, payload).contains(
                #[trigger] check_ids(c)[i],
            ),
    ensures
        authenticate_decision(cfg, secret_key_id, payload, checks.push(c))
            == authenticate_decision(cfg, secret_key_id, payload, checks),
{
    lemma_matching_ids_push(checks, payload, c);
    lemma_dedup_append_contained(matching_ids(checks, payload), check_ids(c));
    lemma_has_invalid_push(checks, c);
}

/// A signature that verifies correctly but over different content is
/// discarded silently: it contributes no weight, and the decision —
/// including whether the attempt fails at all — is exactly the one made
/// without it.
pub proof fn lemma_mismatched_signature_discarded(
    cfg: Configuration,
    secret_key_id: u64,
    payload: Seq<u8>,
    checks: Seq<SignatureCheck>,
    c: SignatureCheck,
)
    requires
        c is Valid,
        !check_matches(c, payload),
    ensures
        authenticate_decision(cfg, secret_key_id, payload, checks.push(c))
            == authenticate_decision(cfg, secret_key_id, payload, checks),
{
    lemma_matching_ids_push(checks, payload, c);
    assert(matching_ids(checks.push(c), payload) =~= matching_ids(checks, payload));
    lemma_has_invalid_push(checks, c);
}

} // verus!
