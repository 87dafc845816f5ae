use service_ledger::ledger::{DivergeProofOfService, Error, Session};
use soroban_sdk::Env;

const ADMIN: &[u8] = b"GADMIN";
const THERAPIST: &[u8] = b"GTHERAPIST";
const OTHER: &[u8] = b"GOTHER";
const SALT: [u8; 32] = [0u8; 32];

fn ready_ledger() -> DivergeProofOfService {
    let mut l = DivergeProofOfService::new();
    l.init(ADMIN, SALT).unwrap();
    l.set_therapist(ADMIN, THERAPIST, true).unwrap();
    l
}

fn record(l: &mut DivergeProofOfService, env: &Env, who: &[u8], name: &[u8], month: u32, kind: &[u8]) -> Result<u32, Error> {
    l.record_session(env, who, who, name, b"1234", kind, b"OK", month, 1_700_000_000)
}

#[test]
fn test_flow_completo() {
    let env = Env::default();
    let mut l = ready_ledger();
    let name: &[u8] = b"Juan Perez";
    let pin: &[u8] = b"1234";
    let kind: &[u8] = b"KINESIO";
    let status: &[u8] = b"OK";
    let mes: u32 = 202512;

    let session_id = l.record_session(&env, THERAPIST, THERAPIST, name, pin, kind, status, mes, 0).unwrap();
    assert_eq!(session_id, 1);

    let session = l.get_session(1).unwrap();
    assert_eq!(session.kind, kind.to_vec());
    assert_eq!(session.therapist, THERAPIST.to_vec());

    let count = l.get_monthly_count(&env, name, pin, mes, kind).unwrap();
    assert_eq!(count, 1);
}

#[test]
fn second_identical_recording_counts_two() {
    let env = Env::default();
    let mut l = ready_ledger();
    assert_eq!(record(&mut l, &env, THERAPIST, b"Juan Perez", 202512, b"KINESIO"), Ok(1));
    assert_eq!(record(&mut l, &env, THERAPIST, b"Juan Perez", 202512, b"KINESIO"), Ok(2));
    assert_eq!(l.get_monthly_count(&env, b"Juan Perez", b"1234", 202512, b"KINESIO"), Ok(2));
    assert_eq!(l.session_count(), 2);
}

#[test]
fn derive_matches_sha256_of_salt_name_pin() {
    let env = Env::default();
    let expected: [u8; 32] = [
        27, 153, 77, 200, 78, 34, 232, 10, 113, 163, 117, 207, 143, 144, 192, 23, 215, 218, 92, 47,
        36, 227, 43, 150, 231, 234, 93, 26, 0, 121, 73, 229,
    ];
    assert_eq!(service_ledger::pseudonym::derive(&env, &SALT, b"Juan Perez", b"1234"), expected);
}

#[test]
fn derive_is_deterministic_and_pin_sensitive() {
    let env = Env::default();
    let a = service_ledger::pseudonym::derive(&env, &SALT, b"Juan Perez", b"1234");
    let b = service_ledger::pseudonym::derive(&env, &SALT, b"Juan Perez", b"1234");
    assert_eq!(a, b);
    assert_ne!(a, service_ledger::pseudonym::derive(&env, &SALT, b"Juan Perez", b"1235"));
    assert_ne!(a, service_ledger::pseudonym::derive(&env, &SALT, b"Juan Perex", b"1234"));
    assert_ne!(a, service_ledger::pseudonym::derive(&env, &[1u8; 32], b"Juan Perez", b"1234"));
}

#[test]
fn empty_name_and_pin_hash_the_salt_alone() {
    let env = Env::default();
    let expected: [u8; 32] = [102, 104, 122, 173, 248, 98, 189, 119, 108, 143, 193, 139, 142, 159, 142, 32, 8, 151, 20, 133, 110, 226, 51, 179, 144, 42, 89, 29, 13, 95, 41, 37];
    assert_eq!(service_ledger::pseudonym::derive(&env, &SALT, b"", b""), expected);
}

#[test]
fn session_record_holds_all_fields() {
    let env = Env::default();
    let mut l = ready_ledger();
    let id = l
        .record_session(&env, THERAPIST, THERAPIST, b"Ana", b"99", b"FONO", b"DONE", 202401, 42)
        .unwrap();
    let s = l.get_session(id).unwrap();
    let expected = Session {
        id: 1,
        beneficiary_id: service_ledger::pseudonym::derive(&env, &SALT, b"Ana", b"99"),
        therapist: THERAPIST.to_vec(),
        timestamp: 42,
        kind: b"FONO".to_vec(),
        status: b"DONE".to_vec(),
    };
    assert!(s == expected);
    assert_eq!(s.status, b"DONE".to_vec());
    assert_eq!(s.timestamp, 42);
}

#[test]
fn record_for_uses_given_pseudonym() {
    let env = Env::default();
    let mut l = ready_ledger();
    let bid = service_ledger::pseudonym::derive(&env, &SALT, b"Juan Perez", b"1234");
    assert_eq!(l.record_for(THERAPIST, THERAPIST, &bid, b"KINESIO", b"OK", 202512, 7), Ok(1));
    assert_eq!(l.monthly_count_for(&bid, 202512, b"KINESIO"), 1);
    assert_eq!(l.get_monthly_count(&env, b"Juan Perez", b"1234", 202512, b"KINESIO"), Ok(1));
    assert_eq!(l.monthly_count_for(&[9u8; 32], 202512, b"KINESIO"), 0);
}

#[test]
fn sequence_ids_are_gap_free_across_providers() {
    let env = Env::default();
    let mut l = ready_ledger();
    l.set_therapist(ADMIN, OTHER, true).unwrap();
    assert_eq!(record(&mut l, &env, THERAPIST, b"A", 202501, b"K"), Ok(1));
    assert_eq!(record(&mut l, &env, OTHER, b"B", 202502, b"K"), Ok(2));
    assert_eq!(record(&mut l, &env, THERAPIST, b"C", 202503, b"L"), Ok(3));
    for id in 1..=3u32 {
        assert_eq!(l.get_session(id).unwrap().id, id);
    }
    assert_eq!(l.get_session(2).unwrap().therapist, OTHER.to_vec());
}

#[test]
fn monthly_counts_are_kept_per_bucket() {
    let env = Env::default();
    let mut l = ready_ledger();
    record(&mut l, &env, THERAPIST, b"Juan", 202512, b"KINESIO").unwrap();
    record(&mut l, &env, THERAPIST, b"Juan", 202512, b"KINESIO").unwrap();
    record(&mut l, &env, THERAPIST, b"Juan", 202601, b"KINESIO").unwrap();
    record(&mut l, &env, THERAPIST, b"Juan", 202512, b"FONO").unwrap();
    record(&mut l, &env, THERAPIST, b"Maria", 202512, b"KINESIO").unwrap();
    assert_eq!(l.get_monthly_count(&env, b"Juan", b"1234", 202512, b"KINESIO"), Ok(2));
    assert_eq!(l.get_monthly_count(&env, b"Juan", b"1234", 202601, b"KINESIO"), Ok(1));
    assert_eq!(l.get_monthly_count(&env, b"Juan", b"1234", 202512, b"FONO"), Ok(1));
    assert_eq!(l.get_monthly_count(&env, b"Maria", b"1234", 202512, b"KINESIO"), Ok(1));
    assert_eq!(l.get_monthly_count(&env, b"Juan", b"0000", 202512, b"KINESIO"), Ok(0));
    assert_eq!(l.get_monthly_count(&env, b"Nadie", b"1234", 202512, b"KINESIO"), Ok(0));
}

#[test]
fn second_init_fails_and_changes_nothing() {
    let env = Env::default();
    let mut l = ready_ledger();
    record(&mut l, &env, THERAPIST, b"Juan", 202512, b"KINESIO").unwrap();
    assert_eq!(l.init(OTHER, [7u8; 32]), Err(Error::AlreadyInitialized));
    assert_eq!(l.session_count(), 1);
    // The old admin still governs and the old salt still derives the ids.
    assert_eq!(l.set_therapist(OTHER, OTHER, true), Err(Error::Unauthorized));
    assert_eq!(l.get_monthly_count(&env, b"Juan", b"1234", 202512, b"KINESIO"), Ok(1));
}

#[test]
fn never_authorized_provider_is_rejected() {
    let env = Env::default();
    let mut l = ready_ledger();
    assert_eq!(record(&mut l, &env, OTHER, b"Juan", 202512, b"KINESIO"), Err(Error::ProviderNotAuthorized));
    assert_eq!(l.session_count(), 0);
    assert_eq!(l.get_session(1).unwrap_err(), Error::SessionNotFound);
    assert_eq!(l.get_monthly_count(&env, b"Juan", b"1234", 202512, b"KINESIO"), Ok(0));
    assert!(!l.is_authorized(OTHER));
}

#[test]
fn deauthorized_provider_is_rejected() {
    let env = Env::default();
    let mut l = ready_ledger();
    assert_eq!(record(&mut l, &env, THERAPIST, b"Juan", 202512, b"KINESIO"), Ok(1));
    assert_eq!(l.set_therapist(ADMIN, THERAPIST, false), Ok(()));
    assert!(!l.is_authorized(THERAPIST));
    assert_eq!(record(&mut l, &env, THERAPIST, b"Juan", 202512, b"KINESIO"), Err(Error::ProviderNotAuthorized));
    assert_eq!(l.session_count(), 1);
    assert_eq!(l.get_monthly_count(&env, b"Juan", b"1234", 202512, b"KINESIO"), Ok(1));
    assert_eq!(l.set_therapist(ADMIN, THERAPIST, true), Ok(()));
    assert_eq!(record(&mut l, &env, THERAPIST, b"Juan", 202512, b"KINESIO"), Ok(2));
}

#[test]
fn unknown_session_id_is_not_found() {
    let env = Env::default();
    let mut l = ready_ledger();
    assert_eq!(l.get_session(0).unwrap_err(), Error::SessionNotFound);
    assert_eq!(l.get_session(1).unwrap_err(), Error::SessionNotFound);
    record(&mut l, &env, THERAPIST, b"Juan", 202512, b"KINESIO").unwrap();
    assert!(l.get_session(1).is_ok());
    assert_eq!(l.get_session(2).unwrap_err(), Error::SessionNotFound);
    assert_eq!(l.get_session(u32::MAX).unwrap_err(), Error::SessionNotFound);
}

#[test]
fn signer_must_be_the_provider() {
    let env = Env::default();
    let mut l = ready_ledger();
    let r = l.record_session(&env, ADMIN, THERAPIST, b"Juan", b"1234", b"K", b"OK", 202512, 0);
    assert_eq!(r, Err(Error::Unauthorized));
    assert_eq!(l.session_count(), 0);
}

#[test]
fn operations_before_init_fail() {
    let env = Env::default();
    let mut l = DivergeProofOfService::new();
    assert_eq!(l.set_therapist(ADMIN, THERAPIST, true), Err(Error::NotInitialized));
    assert_eq!(l.get_monthly_count(&env, b"Juan", b"1234", 202512, b"K"), Err(Error::NotInitialized));
    assert!(!l.is_authorized(THERAPIST));
    let bid = [0u8; 32];
    assert_eq!(l.record_for(THERAPIST, THERAPIST, &bid, b"K", b"OK", 202512, 0), Err(Error::ProviderNotAuthorized));
}

#[test]
fn only_admin_sets_authorizations() {
    let mut l = DivergeProofOfService::new();
    assert_eq!(l.init(ADMIN, SALT), Ok(()));
    assert_eq!(l.set_therapist(THERAPIST, THERAPIST, true), Err(Error::Unauthorized));
    assert!(!l.is_authorized(THERAPIST));
    assert_eq!(l.set_therapist(ADMIN, THERAPIST, true), Ok(()));
    assert!(l.is_authorized(THERAPIST));
}

#[test]
fn session_duplicate_is_equal() {
    let env = Env::default();
    let mut l = ready_ledger();
    record(&mut l, &env, THERAPIST, b"Juan", 202512, b"KINESIO").unwrap();
    let s = l.get_session(1).unwrap();
    assert!(s.duplicate() == s);
    let mut t = s.duplicate();
    t.status = b"VOID".to_vec();
    assert!(t != s);
}
