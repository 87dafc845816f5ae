//! The session ledger: administration, the provider registry, session
//! records with their sequence ids, and the monthly aggregate counters.
use soroban_sdk::Env;
use vstd::prelude::*;

use crate::bytes::{bytes_eq, copy_bytes};
use crate::pseudonym::pseudonym_of;

verus! {

/// Why an operation on the ledger failed. A failed operation changes nothing.
#[derive(Debug, Clone, Copy, PartialEq, Eq, Structural)]
pub enum Error {
    AlreadyInitialized,
    NotInitialized,
    Unauthorized,
    ProviderNotAuthorized,
    SessionNotFound,
}

/// One delivered service, as recorded.
#[derive(Clone, Debug)]
pub struct Session {
    pub id: u32,
    pub beneficiary_id: [u8; 32],
    pub therapist: Vec<u8>,
    pub timestamp: u64,
    pub kind: Vec<u8>,
    pub status: Vec<u8>,
}

/// The mathematical value of a session record.
pub struct SessionView {
    pub id: u32,
    pub beneficiary_id: Seq<u8>,
    pub therapist: Seq<u8>,
    pub timestamp: u64,
    pub kind: Seq<u8>,
    pub status: Seq<u8>,
}

impl View for Session {
    type V = SessionView;

    open spec fn view(&self) -> SessionView {
        SessionView {
            id: self.id,
            beneficiary_id: self.beneficiary_id@,
            therapist: self.therapist@,
            timestamp: self.timestamp,
            kind: self.kind@,
            status: self.status@,
        }
    }
}

impl Session {
    /// A copy of the record with the same value.
    pub fn duplicate(&self) -> (r: Session)
        ensures
            r@ == self@,
    {
        Session {
            id: self.id,
            beneficiary_id: self.beneficiary_id,
            therapist: copy_bytes(self.therapist.as_slice()),
            timestamp: self.timestamp,
            kind: copy_bytes(self.kind.as_slice()),
            status: copy_bytes(self.status.as_slice()),
        }
    }
}

impl PartialEq for Session {
    fn eq(&self, o: &Session) -> (r: bool) {
        self.id == o.id && bytes_eq(self.beneficiary_id.as_slice(), o.beneficiary_id.as_slice())
            && bytes_eq(self.therapist.as_slice(), o.therapist.as_slice()) && self.timestamp
            == o.timestamp && bytes_eq(self.kind.as_slice(), o.kind.as_slice()) && bytes_eq(
            self.status.as_slice(),
            o.status.as_slice(),
        )
    }
}

impl vstd::std_specs::cmp::PartialEqSpecImpl for Session {
    open spec fn obeys_eq_spec() -> bool {
        true
    }

    open spec fn eq_spec(&self, o: &Session) -> bool {
        self@ == o@
    }
}

/// Whether a session, recorded for month `month`, falls in the aggregate
/// bucket of beneficiary `bid`, month `ym` and kind `kind`.
pub open spec fn in_bucket(s: SessionView, month: u32, bid: Seq<u8>, ym: u32, kind: Seq<u8>) -> bool {
    s.beneficiary_id == bid && month == ym && s.kind == kind
}

/// How many of the sessions (with their months alongside) fall in a bucket.
pub open spec fn count_in_bucket(
    sessions: Seq<Session>,
    months: Seq<u32>,
    bid: Seq<u8>,
    ym: u32,
    kind: Seq<u8>,
) -> nat
    decreases sessions.len(),
{
    if sessions.len() == 0 || months.len() == 0 {
        0
    } else {
        count_in_bucket(sessions.drop_last(), months.drop_last(), bid, ym, kind) + if in_bucket(
            sessions.last()@,
            months.last(),
            bid,
            ym,
            kind,
        ) {
            1nat
        } else {
            0nat
        }
    }
}

/// Whether the authorisation log, where the last entry for a provider
/// holds, marks the provider active; a provider with no entry is not.
pub open spec fn active_in(log: Seq<(Vec<u8>, bool)>, provider: Seq<u8>) -> bool
    decreases log.len(),
{
    if log.len() == 0 {
        false
    } else if log.last().0@ == provider {
        log.last().1
    } else {
        active_in(log.drop_last(), provider)
    }
}

/// The key of one monthly aggregate counter.
struct BucketKey {
    beneficiary_id: [u8; 32],
    yyyymm: u32,
    kind: Vec<u8>,
}

spec fn key_is(k: BucketKey, bid: Seq<u8>, ym: u32, kind: Seq<u8>) -> bool {
    k.beneficiary_id@ == bid && k.yyyymm == ym && k.kind@ == kind
}

/// The ledger's whole state: configuration, session counter, provider
/// authorisations, the sessions and the monthly counters.
pub struct DivergeProofOfService {
    config: Option<(Vec<u8>, [u8; 32])>,
    session_count: u32,
    therapists: Vec<(Vec<u8>, bool)>,
    sessions: Vec<Session>,
    months: Ghost<Seq<u32>>,
    bucket_keys: Vec<BucketKey>,
    bucket_counts: Vec<u32>,
}

impl DivergeProofOfService {
    /// Whether the ledger has been initialised.
    pub closed spec fn initialized(&self) -> bool {
        self.config is Some
    }

    /// The administrator's identity.
    pub closed spec fn admin(&self) -> Seq<u8> {
        self.config->Some_0.0@
    }

    /// The secret salt of the pseudonyms.
    pub closed spec fn salt(&self) -> Seq<u8> {
        self.config->Some_0.1@
    }

    /// The session counter: the last sequence id handed out.
    pub closed spec fn counter(&self) -> u32 {
        self.session_count
    }

    /// The recorded sessions, in order of recording.
    pub closed spec fn sessions(&self) -> Seq<Session> {
        self.sessions@
    }

    /// The month that each recorded session was counted under.
    pub closed spec fn months(&self) -> Seq<u32> {
        self.months@
    }

    /// Whether the provider is currently authorised to record sessions.
    pub closed spec fn authorized(&self, provider: Seq<u8>) -> bool {
        active_in(self.therapists@, provider)
    }

    /// The aggregate counter of a bucket: the number of sessions in it.
    pub open spec fn bucket_count(&self, bid: Seq<u8>, ym: u32, kind: Seq<u8>) -> nat {
        count_in_bucket(self.sessions(), self.months(), bid, ym, kind)
    }

    /// Each aggregate counter equals the number of sessions in its bucket,
    /// buckets have one counter at most, and a non-empty bucket has one.
    pub closed spec fn buckets_ok(&self) -> bool {
        &&& self.bucket_keys@.len() == self.bucket_counts@.len()
        &&& forall|i: int|
            0 <= i < self.bucket_keys@.len() ==> #[trigger] self.bucket_counts@[i]
                == self.bucket_count(
                self.bucket_keys@[i].beneficiary_id@,
                self.bucket_keys@[i].yyyymm,
                self.bucket_keys@[i].kind@,
            )
        &&& forall|i: int, j: int|
            0 <= i < self.bucket_keys@.len() && 0 <= j < self.bucket_keys@.len() && i != j
                ==> !key_is(
                #[trigger] self.bucket_keys@[i],
                #[trigger] self.bucket_keys@[j].beneficiary_id@,
                self.bucket_keys@[j].yyyymm,
                self.bucket_keys@[j].kind@,
            )
        &&& forall|bid: Seq<u8>, ym: u32, kind: Seq<u8>|
            #[trigger] self.bucket_count(bid, ym, kind) > 0 ==> exists|i: int|
                0 <= i < self.bucket_keys@.len() && #[trigger] key_is(
                    self.bucket_keys@[i],
                    bid,
                    ym,
                    kind,
                )
    }

    /// Well-formedness: the counter equals the number of sessions, ids run
    /// 1, 2, 3, ... in order, nothing is recorded before initialisation, and
    /// each aggregate counter equals the number of sessions in its bucket.
    pub open spec fn wf(&self) -> bool {
        &&& self.counter() == self.sessions().len()
        &&& self.months().len() == self.sessions().len()
        &&& forall|i: int| 0 <= i < self.sessions().len() ==> #[trigger] self.sessions()[i].id == i + 1
        &&& !self.initialized() ==> self.sessions().len() == 0
        &&& self.buckets_ok()
    }
}

/// Recording one more session adds it to its own bucket and to no other.
pub proof fn lemma_count_push(sessions: Seq<Session>, months: Seq<u32>, s: Session, month: u32)
    requires
        sessions.len() == months.len(),
    ensures
        forall|bid: Seq<u8>, ym: u32, kind: Seq<u8>|
            #[trigger] count_in_bucket(sessions.push(s), months.push(month), bid, ym, kind)
                == count_in_bucket(sessions, months, bid, ym, kind) + if in_bucket(
                s@,
                month,
                bid,
                ym,
                kind,
            ) {
                1nat
            } else {
                0nat
            },
{
    assert(sessions.push(s).drop_last() =~= sessions);
    assert(months.push(month).drop_last() =~= months);
}

/// A bucket holds no more sessions than were recorded.
pub proof fn lemma_count_bound(
    sessions: Seq<Session>,
    months: Seq<u32>,
    bid: Seq<u8>,
    ym: u32,
    kind: Seq<u8>,
)
    ensures
        count_in_bucket(sessions, months, bid, ym, kind) <= sessions.len(),
    decreases sessions.len(),
{
    if sessions.len() > 0 && months.len() > 0 {
        lemma_count_bound(sessions.drop_last(), months.drop_last(), bid, ym, kind);
    }
}

/// An empty ledger has no session in any bucket.
proof fn lemma_count_empty(months: Seq<u32>)
    ensures
        forall|bid: Seq<u8>, ym: u32, kind: Seq<u8>|
            #[trigger] count_in_bucket(Seq::<Session>::empty(), months, bid, ym, kind) == 0,
{
}

impl DivergeProofOfService {
    /// An uninitialised ledger: no configuration, no provider, no session.
    pub fn new() -> (r: Self)
        ensures
            r.wf(),
            !r.initialized(),
            r.counter() == 0,
            r.sessions().len() == 0,
            forall|p: Seq<u8>| !#[trigger] r.authorized(p),
            forall|bid: Seq<u8>, ym: u32, kind: Seq<u8>| #[trigger] r.bucket_count(bid, ym, kind) == 0,
    {
        proof {
            lemma_count_empty(Seq::empty());
        }
        DivergeProofOfService {
            config: None,
            session_count: 0,
            therapists: Vec::new(),
            sessions: Vec::new(),
            months: Ghost(Seq::empty()),
            bucket_keys: Vec::new(),
            bucket_counts: Vec::new(),
        }
    }

    /// Initialises the ledger with its administrator and salt, once.
    pub fn init(&mut self, admin: &[u8], salt: [u8; 32]) -> (r: Result<(), Error>)
        requires
            old(self).wf(),
        ensures
            final(self).wf(),
            old(self).initialized() ==> r == Err::<(), Error>(Error::AlreadyInitialized) && *final(self) == *old(self),
            !old(self).initialized() ==> {
                &&& r is Ok
                &&& final(self).initialized()
                &&& final(self).admin() == admin@
                &&& final(self).salt() == salt@
                &&& final(self).counter() == 0
                &&& final(self).sessions() == old(self).sessions()
                &&& final(self).months() == old(self).months()
                &&& forall|p: Seq<u8>| #[trigger]
                    final(self).authorized(p) == old(self).authorized(p)
            },
    {
        if self.config.is_some() {
            return Err(Error::AlreadyInitialized);
        }
        self.config = Some((copy_bytes(admin), salt));
        self.session_count = 0;
        Ok(())
    }

    /// Whether the provider is currently authorised; a provider that was
    /// never mentioned is not.
    pub fn is_authorized(&self, provider: &[u8]) -> (r: bool)
        ensures
            r == self.authorized(provider@),
    {
        let mut i: usize = self.therapists.len();
        assert(self.therapists@.subrange(0, i as int) =~= self.therapists@);
        while i > 0
            invariant
                i <= self.therapists@.len(),
                active_in(self.therapists@.subrange(0, i as int), provider@) == active_in(
                    self.therapists@,
                    provider@,
                ),
            decreases i,
        {
            let ghost pre = self.therapists@.subrange(0, i as int);
            assert(pre.drop_last() =~= self.therapists@.subrange(0, i - 1));
            if bytes_eq(self.therapists[i - 1].0.as_slice(), provider) {
                return self.therapists[i - 1].1;
            }
            i = i - 1;
        }
        false
    }

    /// Grants (`active`) or withdraws a provider's authorisation; `signer`
    /// is the identity whose authorisation proof the host has checked, and
    /// must be the administrator's.
    pub fn set_therapist(&mut self, signer: &[u8], therapist: &[u8], active: bool) -> (r: Result<
        (),
        Error,
    >)
        requires
            old(self).wf(),
        ensures
            final(self).wf(),
            !old(self).initialized() ==> r == Err::<(), Error>(Error::NotInitialized) && *final(self) == *old(self),
            old(self).initialized() && signer@ != old(self).admin() ==> r == Err::<(), Error>(
                Error::Unauthorized,
            ) && *final(self) == *old(self),
            old(self).initialized() && signer@ == old(self).admin() ==> {
                &&& r is Ok
                &&& final(self).authorized(therapist@) == active
                &&& forall|p: Seq<u8>|
                    p != therapist@ ==> #[trigger] final(self).authorized(p) == old(self).authorized(p)
                &&& final(self).initialized()
                &&& final(self).admin() == old(self).admin()
                &&& final(self).salt() == old(self).salt()
                &&& final(self).counter() == old(self).counter()
                &&& final(self).sessions() == old(self).sessions()
                &&& final(self).months() == old(self).months()
            },
    {
        match &self.config {
            None => {
                return Err(Error::NotInitialized);
            },
            Some(cfg) => {
                if !bytes_eq(cfg.0.as_slice(), signer) {
                    return Err(Error::Unauthorized);
                }
            },
        }
        let entry = (copy_bytes(therapist), active);
        self.therapists.push(entry);
        proof {
            let log = self.therapists@;
            assert(log.drop_last() =~= old(self).therapists@);
            assert forall|bid: Seq<u8>, ym: u32, kind: Seq<u8>|
                #[trigger] self.bucket_count(bid, ym, kind) > 0 implies exists|i: int|
                    0 <= i < self.bucket_keys@.len() && #[trigger] key_is(
                        self.bucket_keys@[i],
                        bid,
                        ym,
                        kind,
                    ) by {
                assert(old(self).buckets_ok());
                assert(self.bucket_keys@ == old(self).bucket_keys@);
                assert(old(self).bucket_count(bid, ym, kind) > 0);
            }
        }
        Ok(())
    }

    /// The number of sessions recorded so far, which is the last sequence id
    /// handed out.
    pub fn session_count(&self) -> (r: u32)
        ensures
            r == self.counter(),
    {
        self.session_count
    }

    /// The session with sequence id `id`.
    pub fn get_session(&self, id: u32) -> (r: Result<Session, Error>)
        requires
            self.wf(),
        ensures
            1 <= id <= self.sessions().len() ==> r is Ok && r->Ok_0@ == self.sessions()[id - 1]@,
            !(1 <= id <= self.sessions().len()) ==> r == Err::<Session, Error>(
                Error::SessionNotFound,
            ),
    {
        if id == 0 || id as usize > self.sessions.len() {
            return Err(Error::SessionNotFound);
        }
        Ok(self.sessions[id as usize - 1].duplicate())
    }
}

impl DivergeProofOfService {
    /// `post` is `pre` with one more session recorded: sequence id `id`,
    /// the next one, with these fields, counted under month `ym`; the
    /// configuration and the authorisations stay as they were.
    pub open spec fn appended(
        pre: &Self,
        post: &Self,
        id: u32,
        bid: Seq<u8>,
        therapist: Seq<u8>,
        timestamp: u64,
        kind: Seq<u8>,
        status: Seq<u8>,
        ym: u32,
    ) -> bool {
        &&& id == pre.counter() + 1
        &&& post.counter() == id
        &&& post.sessions().len() == pre.sessions().len() + 1
        &&& post.sessions().drop_last() == pre.sessions()
        &&& post.sessions().last()@ == (SessionView {
            id,
            beneficiary_id: bid,
            therapist,
            timestamp,
            kind,
            status,
        })
        &&& post.months() == pre.months().push(ym)
        &&& post.bucket_count(bid, ym, kind) == pre.bucket_count(bid, ym, kind) + 1
        &&& post.initialized() == pre.initialized()
        &&& post.admin() == pre.admin()
        &&& post.salt() == pre.salt()
        &&& forall|p: Seq<u8>| #[trigger] post.authorized(p) == pre.authorized(p)
    }

    /// The index of the counter of a bucket, if the bucket has one.
    fn find_bucket(&self, bid: &[u8; 32], ym: u32, kind: &[u8]) -> (r: Option<usize>)
        ensures
            r matches Some(j) ==> j < self.bucket_keys@.len() && key_is(
                self.bucket_keys@[j as int],
                bid@,
                ym,
                kind@,
            ),
            r is None ==> forall|i: int|
                0 <= i < self.bucket_keys@.len() ==> !key_is(
                    #[trigger] self.bucket_keys@[i],
                    bid@,
                    ym,
                    kind@,
                ),
    {
        let mut i: usize = 0;
        while i < self.bucket_keys.len()
            invariant
                i <= self.bucket_keys@.len(),
                forall|k: int| 0 <= k < i ==> !key_is(#[trigger] self.bucket_keys@[k], bid@, ym, kind@),
            decreases self.bucket_keys@.len() - i,
        {
            let key = &self.bucket_keys[i];
            if key.yyyymm == ym && bytes_eq(key.beneficiary_id.as_slice(), bid.as_slice())
                && bytes_eq(key.kind.as_slice(), kind) {
                return Some(i);
            }
            i = i + 1;
        }
        None
    }

    /// The aggregate counter of the bucket of beneficiary id `bid`, month
    /// `yyyymm` and kind `kind`: the number of sessions recorded in it.
    pub fn monthly_count_for(&self, bid: &[u8; 32], yyyymm: u32, kind: &[u8]) -> (r: u32)
        requires
            self.wf(),
        ensures
            r == self.bucket_count(bid@, yyyymm, kind@),
    {
        match self.find_bucket(bid, yyyymm, kind) {
            Some(j) => self.bucket_counts[j],
            None => 0,
        }
    }

    /// The aggregate counter of the beneficiary with this name and pin, for
    /// month `yyyymm` and kind `kind`; the id is derived with the stored salt.
    pub fn get_monthly_count(&self, env: &Env, name: &[u8], pin: &[u8], yyyymm: u32, kind: &[u8]) -> (r:
        Result<u32, Error>)
        requires
            self.wf(),
        ensures
            !self.initialized() ==> r == Err::<u32, Error>(Error::NotInitialized),
            self.initialized() ==> r == Ok::<u32, Error>(
                self.bucket_count(pseudonym_of(self.salt(), name@, pin@), yyyymm, kind@) as u32,
            ),
    {
        match &self.config {
            None => Err(Error::NotInitialized),
            Some(cfg) => {
                let bid = crate::pseudonym::derive(env, &cfg.1, name, pin);
                let c = self.monthly_count_for(&bid, yyyymm, kind);
                Ok(c)
            },
        }
    }

    /// Appends a session for an initialised ledger and counts it in its
    /// bucket.
    fn append_session(
        &mut self,
        bid: &[u8; 32],
        therapist: &[u8],
        kind: &[u8],
        status: &[u8],
        yyyymm: u32,
        timestamp: u64,
    ) -> (r: u32)
        requires
            old(self).wf(),
            old(self).initialized(),
            old(self).counter() < u32::MAX,
        ensures
            final(self).wf(),
            Self::appended(
                old(self),
                final(self),
                r,
                bid@,
                therapist@,
                timestamp,
                kind@,
                status@,
                yyyymm,
            ),
    {
        let found = self.find_bucket(bid, yyyymm, kind);
        let ghost old_sessions = self.sessions@;
        let ghost old_months = self.months@;
        let ghost old_keys = self.bucket_keys@;
        let ghost old_counts = self.bucket_counts@;
        let id = self.session_count + 1;
        let session = Session {
            id,
            beneficiary_id: *bid,
            therapist: copy_bytes(therapist),
            timestamp,
            kind: copy_bytes(kind),
            status: copy_bytes(status),
        };
        let ghost s = session;
        self.sessions.push(session);
        self.months = Ghost(self.months@.push(yyyymm));
        self.session_count = id;
        proof {
            lemma_count_push(old_sessions, old_months, s, yyyymm);
            assert(self.sessions@ == old_sessions.push(s));
            assert(self.sessions@.drop_last() =~= old_sessions);
        }
        match found {
            Some(j) => {
                let c = self.bucket_counts[j];
                proof {
                    lemma_count_bound(old_sessions, old_months, bid@, yyyymm, kind@);
                }
                self.bucket_counts[j] = c + 1;
                proof {
                    assert forall|i: int| 0 <= i < self.bucket_keys@.len() implies #[trigger] self.bucket_counts@[i]
                        == self.bucket_count(
                        self.bucket_keys@[i].beneficiary_id@,
                        self.bucket_keys@[i].yyyymm,
                        self.bucket_keys@[i].kind@,
                    ) by {
                        let k = self.bucket_keys@[i];
                        assert(old_counts[i] == old(self).bucket_count(k.beneficiary_id@, k.yyyymm, k.kind@));
                        if i != j {
                            assert(!key_is(old_keys[i], old_keys[j as int].beneficiary_id@, old_keys[j as int].yyyymm, old_keys[j as int].kind@));
                        }
                    }
                    assert forall|b: Seq<u8>, ym: u32, kd: Seq<u8>|
                        #[trigger] self.bucket_count(b, ym, kd) > 0 implies exists|i: int|
                            0 <= i < self.bucket_keys@.len() && #[trigger] key_is(
                                self.bucket_keys@[i],
                                b,
                                ym,
                                kd,
                            ) by {
                        if !key_is(old_keys[j as int], b, ym, kd) {
                            assert(old(self).buckets_ok());
                            assert(old(self).bucket_count(b, ym, kd) > 0);
                        }
                    }
                }
            },
            None => {
                let key = BucketKey { beneficiary_id: *bid, yyyymm, kind: copy_bytes(kind) };
                self.bucket_keys.push(key);
                self.bucket_counts.push(1);
                proof {
                    assert(old(self).buckets_ok());
                    assert(old(self).bucket_count(bid@, yyyymm, kind@) == 0);
                    assert forall|i: int| 0 <= i < self.bucket_keys@.len() implies #[trigger] self.bucket_counts@[i]
                        == self.bucket_count(
                        self.bucket_keys@[i].beneficiary_id@,
                        self.bucket_keys@[i].yyyymm,
                        self.bucket_keys@[i].kind@,
                    ) by {
                        let k = self.bucket_keys@[i];
                        if i < old_keys.len() {
                            assert(old_counts[i] == old(self).bucket_count(k.beneficiary_id@, k.yyyymm, k.kind@));
                        }
                    }
                    assert forall|i: int, i2: int|
                        0 <= i < self.bucket_keys@.len() && 0 <= i2 < self.bucket_keys@.len() && i != i2
                        implies !key_is(
                        #[trigger] self.bucket_keys@[i],
                        #[trigger] self.bucket_keys@[i2].beneficiary_id@,
                        self.bucket_keys@[i2].yyyymm,
                        self.bucket_keys@[i2].kind@,
                    ) by {
                        if i < old_keys.len() && i2 < old_keys.len() {
                            assert(!key_is(old_keys[i], old_keys[i2].beneficiary_id@, old_keys[i2].yyyymm, old_keys[i2].kind@));
                        } else if i < old_keys.len() {
                            assert(!key_is(old_keys[i], bid@, yyyymm, kind@));
                        } else {
                            assert(!key_is(old_keys[i2], bid@, yyyymm, kind@));
                        }
                    }
                    assert forall|b: Seq<u8>, ym: u32, kd: Seq<u8>|
                        #[trigger] self.bucket_count(b, ym, kd) > 0 implies exists|i: int|
                            0 <= i < self.bucket_keys@.len() && #[trigger] key_is(
                                self.bucket_keys@[i],
                                b,
                                ym,
                                kd,
                            ) by {
                        let n = old_keys.len() as int;
                        if key_is(self.bucket_keys@[n], b, ym, kd) {
                            assert(key_is(self.bucket_keys@[n], b, ym, kd));
                        } else {
                            assert(!in_bucket(s@, yyyymm, b, ym, kd));
                            assert(old(self).bucket_count(b, ym, kd) > 0);
                            let w = choose|w: int|
                                0 <= w < old_keys.len() && #[trigger] key_is(old_keys[w], b, ym, kd);
                            assert(self.bucket_keys@[w] == old_keys[w]);
                            assert(key_is(self.bucket_keys@[w], b, ym, kd));
                        }
                    }
                }
            },
        }
        id
    }
}

impl DivergeProofOfService {
    /// What a recording request does to the ledger `pre`, giving `post` and
    /// the result `r`: `signer` is the identity whose authorisation proof the
    /// host has checked, and `bid` the beneficiary's pseudonym. The checks
    /// come in this order: the signer must be the provider, the provider
    /// must be authorised, and the ledger initialised; a failed check leaves
    /// the ledger as it was.
    pub open spec fn record_outcome(
        pre: Self,
        post: Self,
        r: Result<u32, Error>,
        signer: Seq<u8>,
        therapist: Seq<u8>,
        bid: Seq<u8>,
        timestamp: u64,
        kind: Seq<u8>,
        status: Seq<u8>,
        ym: u32,
    ) -> bool {
        if signer != therapist {
            r == Err::<u32, Error>(Error::Unauthorized) && post == pre
        } else if !pre.authorized(therapist) {
            r == Err::<u32, Error>(Error::ProviderNotAuthorized) && post == pre
        } else if !pre.initialized() {
            r == Err::<u32, Error>(Error::NotInitialized) && post == pre
        } else {
            r matches Ok(id) && Self::appended(
                &pre,
                &post,
                id,
                bid,
                therapist,
                timestamp,
                kind,
                status,
                ym,
            )
        }
    }

    /// Records a session for the beneficiary with pseudonym `bid`, delivered
    /// by `therapist` at `timestamp`, and counts it under month `yyyymm`;
    /// returns its sequence id.
    pub fn record_for(
        &mut self,
        signer: &[u8],
        therapist: &[u8],
        bid: &[u8; 32],
        kind: &[u8],
        status: &[u8],
        yyyymm: u32,
        timestamp: u64,
    ) -> (r: Result<u32, Error>)
        requires
            old(self).wf(),
            old(self).counter() < u32::MAX,
        ensures
            final(self).wf(),
            Self::record_outcome(
                *old(self),
                *final(self),
                r,
                signer@,
                therapist@,
                bid@,
                timestamp,
                kind@,
                status@,
                yyyymm,
            ),
    {
        if !bytes_eq(signer, therapist) {
            return Err(Error::Unauthorized);
        }
        if !self.is_authorized(therapist) {
            return Err(Error::ProviderNotAuthorized);
        }
        if self.config.is_none() {
            return Err(Error::NotInitialized);
        }
        let id = self.append_session(bid, therapist, kind, status, yyyymm, timestamp);
        Ok(id)
    }

    /// Records a session delivered by `therapist` at `timestamp` to the
    /// beneficiary with this name and pin, whose pseudonym is derived with
    /// the stored salt, and counts it under month `yyyymm`; returns its
    /// sequence id.
    pub fn record_session(
        &mut self,
        env: &Env,
        signer: &[u8],
        therapist: &[u8],
        beneficiary_name: &[u8],
        beneficiary_pin: &[u8],
        kind: &[u8],
        status: &[u8],
        yyyymm: u32,
        timestamp: u64,
    ) -> (r: Result<u32, Error>)
        requires
            old(self).wf(),
            old(self).counter() < u32::MAX,
        ensures
            final(self).wf(),
            Self::record_outcome(
                *old(self),
                *final(self),
                r,
                signer@,
                therapist@,
                pseudonym_of(old(self).salt(), beneficiary_name@, beneficiary_pin@),
                timestamp,
                kind@,
                status@,
                yyyymm,
            ),
    {
        if !bytes_eq(signer, therapist) {
            return Err(Error::Unauthorized);
        }
        if !self.is_authorized(therapist) {
            return Err(Error::ProviderNotAuthorized);
        }
        let bid = match &self.config {
            None => {
                return Err(Error::NotInitialized);
            },
            Some(cfg) => crate::pseudonym::derive(env, &cfg.1, beneficiary_name, beneficiary_pin),
        };
        self.record_for(signer, therapist, &bid, kind, status, yyyymm, timestamp)
    }
}

/// Sequence ids are 1-based and gap-free: in a well-formed ledger the
/// session at position `i` has id `i + 1`, and the counter is the last id.
pub proof fn lemma_ids_gap_free(l: DivergeProofOfService)
    requires
        l.wf(),
    ensures
        forall|i: int| 0 <= i < l.sessions().len() ==> #[trigger] l.sessions()[i].id == i + 1,
        l.counter() == l.sessions().len(),
{
}

/// Two successive successful recordings, by whichever providers, receive
/// consecutive sequence ids, and the later one is strictly greater.
pub proof fn lemma_successive_ids(
    a: DivergeProofOfService,
    b: DivergeProofOfService,
    c: DivergeProofOfService,
    id1: u32,
    id2: u32,
    bid1: Seq<u8>,
    bid2: Seq<u8>,
    therapist1: Seq<u8>,
    therapist2: Seq<u8>,
    timestamp1: u64,
    timestamp2: u64,
    kind1: Seq<u8>,
    kind2: Seq<u8>,
    status1: Seq<u8>,
    status2: Seq<u8>,
    ym1: u32,
    ym2: u32,
)
    requires
        a.wf(),
        DivergeProofOfService::appended(&a, &b, id1, bid1, therapist1, timestamp1, kind1, status1, ym1),
        DivergeProofOfService::appended(&b, &c, id2, bid2, therapist2, timestamp2, kind2, status2, ym2),
    ensures
        id2 == id1 + 1,
        id1 < id2,
        c.sessions()[id1 - 1]@.id == id1,
        c.sessions()[id2 - 1]@.id == id2,
{
    assert(b.sessions().last() == b.sessions()[id1 - 1]);
    assert(c.sessions().drop_last()[id1 - 1] == c.sessions()[id1 - 1]);
}

/// A successful recording adds one to the counter of the session's own
/// bucket and leaves every other bucket's counter unchanged.
pub proof fn lemma_record_counts(
    pre: DivergeProofOfService,
    post: DivergeProofOfService,
    id: u32,
    bid: Seq<u8>,
    therapist: Seq<u8>,
    timestamp: u64,
    kind: Seq<u8>,
    status: Seq<u8>,
    ym: u32,
)
    requires
        pre.wf(),
        DivergeProofOfService::appended(&pre, &post, id, bid, therapist, timestamp, kind, status, ym),
    ensures
        post.bucket_count(bid, ym, kind) == pre.bucket_count(bid, ym, kind) + 1,
        forall|b: Seq<u8>, m: u32, k: Seq<u8>|
            !(b == bid && m == ym && k == kind) ==> #[trigger] post.bucket_count(b, m, k)
                == pre.bucket_count(b, m, k),
{
    let s = post.sessions().last();
    assert(post.sessions() =~= pre.sessions().push(s));
    lemma_count_push(pre.sessions(), pre.months(), s, ym);
}

/// A recording request from a provider that is not authorised (never
/// authorised, or withdrawn) fails with `ProviderNotAuthorized` and changes
/// nothing: no session, no counter, no aggregate.
pub proof fn lemma_unauthorized_provider_rejected(
    pre: DivergeProofOfService,
    post: DivergeProofOfService,
    r: Result<u32, Error>,
    therapist: Seq<u8>,
    bid: Seq<u8>,
    timestamp: u64,
    kind: Seq<u8>,
    status: Seq<u8>,
    ym: u32,
)
    requires
        !pre.authorized(therapist),
        DivergeProofOfService::record_outcome(pre, post, r, therapist, therapist, bid, timestamp, kind, status, ym),
    ensures
        r == Err::<u32, Error>(Error::ProviderNotAuthorized),
        post == pre,
        post.sessions() == pre.sessions(),
        post.counter() == pre.counter(),
        forall|b: Seq<u8>, m: u32, k: Seq<u8>| #[trigger] post.bucket_count(b, m, k) == pre.bucket_count(b, m, k),
{
}

} // verus!
