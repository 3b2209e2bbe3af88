use totpm::db::model::Secret;
use totpm::db::{deleted_one, filter_secrets, str_contains};
use totpm::presence_verification::{ConstPresenceVerifier, Error as PvError, PresenceVerifier};
use totpm::text::decimal_string;
use totpm::totp_store::{
    check_uninitialized, clear_plan, find_next_persistent_handle, parse_key_handle,
    presence_gate, root_key_files, verify_presence, Error, HandleProbe, HandleSearchError,
    FIRST_PERSISTENT_HANDLE, LAST_PERSISTENT_HANDLE,
};

fn secret(id: i64, service: &str, account: &str) -> Secret {
    let mut s = Secret::new(
        service.to_string(),
        account.to_string(),
        Some(6),
        Some(30),
        vec![1, 2, 3],
        vec![4, 5, 6],
    );
    s.id = id;
    s
}

#[test]
fn secret_new_applies_defaults() {
    let s = Secret::new("svc".to_string(), "acct".to_string(), None, None, vec![1], vec![2]);
    assert_eq!(s.id, 0);
    assert_eq!(s.digits, 6);
    assert_eq!(s.interval, 30);
    let s = Secret::new("svc".to_string(), "acct".to_string(), Some(8), Some(60), vec![1], vec![2]);
    assert_eq!(s.digits, 8);
    assert_eq!(s.interval, 60);
    assert_eq!(s.service, "svc");
    assert_eq!(s.public_data, vec![1]);
    assert_eq!(s.private_data, vec![2]);
}

#[test]
fn secret_label_shows_account_at_service() {
    assert_eq!(secret(1, "github", "me@example.com").label(), "me@example.com @ github");
}

#[test]
fn substring_search_is_case_sensitive() {
    assert!(str_contains("firstsvc", "tsvc"));
    assert!(str_contains("firstsvc", ""));
    assert!(str_contains("", ""));
    assert!(!str_contains("firstsvc", "TSVC"));
    assert!(!str_contains("svc", "firstsvc"));
    assert!(str_contains("tjänst", "jä"));
}

#[test]
fn list_secrets_returns_correct_secrets() {
    let all = vec![
        secret(1, "svc", "acct"),
        secret(2, "service", "account"),
        secret(3, "tjänst", "konto"),
    ];
    assert_eq!(filter_secrets(all.clone(), "", ""), all);
    assert_eq!(filter_secrets(all.clone(), "svc", ""), vec![all[0].clone()]);
    assert_eq!(filter_secrets(all.clone(), "", "acc"), vec![all[0].clone(), all[1].clone()]);
    assert_eq!(filter_secrets(all.clone(), "", "cco"), vec![all[1].clone()]);
    assert_eq!(filter_secrets(all.clone(), "", "nto"), vec![all[2].clone()]);
    assert_eq!(filter_secrets(all.clone(), "", "unt"), vec![all[1].clone()]);
    assert_eq!(filter_secrets(all.clone(), "tjänst", "konto"), vec![all[2].clone()]);
    assert_eq!(filter_secrets(all.clone(), "svc", "konto"), vec![]);
    assert_eq!(filter_secrets(all.clone(), "potato", ""), vec![]);
    assert_eq!(filter_secrets(all.clone(), "SVC", ""), vec![]);
}

#[test]
fn list_properly_filters_secrets() {
    let s1 = secret(1, "firstsvc", "firstacc");
    let s2 = secret(2, "secondsvc", "secondacc");
    let all = vec![s1.clone(), s2.clone()];
    assert_eq!(filter_secrets(all.clone(), "firstsvc", ""), vec![s1.clone()]);
    assert_eq!(filter_secrets(all.clone(), "first", ""), vec![s1.clone()]);
    assert_eq!(filter_secrets(all.clone(), "tsvc", ""), vec![s1.clone()]);
    assert_eq!(filter_secrets(all.clone(), "", "firstacc"), vec![s1.clone()]);
    assert_eq!(filter_secrets(all.clone(), "", "tacc"), vec![s1.clone()]);
    assert_eq!(filter_secrets(all.clone(), "dsvc", ""), vec![s2.clone()]);
    assert_eq!(filter_secrets(all.clone(), "", "dacc"), vec![s2.clone()]);
    assert_eq!(filter_secrets(all.clone(), "svc", ""), vec![s1.clone(), s2.clone()]);
    assert_eq!(filter_secrets(all.clone(), "", "acc"), vec![s1.clone(), s2.clone()]);
    assert_eq!(filter_secrets(vec![], "", ""), vec![]);
}

#[test]
fn delete_must_remove_exactly_one_row() {
    assert!(deleted_one(1));
    assert!(!deleted_one(0));
    assert!(!deleted_one(2));
}

#[test]
fn init_fails_if_already_initialized() {
    assert_eq!(check_uninitialized(false, false), Ok(()));
    assert_eq!(check_uninitialized(true, false), Err(Error::AlreadyInitialized));
    assert_eq!(check_uninitialized(false, true), Err(Error::AlreadyInitialized));
    assert_eq!(check_uninitialized(true, true), Err(Error::AlreadyInitialized));
}

#[test]
fn key_handle_files_hold_a_decimal_number() {
    assert_eq!(parse_key_handle("2164260864"), Ok(0x81000000));
    assert_eq!(parse_key_handle(" 2164260865\n"), Ok(0x81000001));
    assert_eq!(parse_key_handle("4294967295"), Ok(u32::MAX));
    assert_eq!(parse_key_handle("4294967296"), Err(Error::KeyHandleError));
    assert_eq!(parse_key_handle("0x81000000"), Err(Error::KeyHandleError));
    assert_eq!(parse_key_handle(""), Err(Error::KeyHandleError));
    assert_eq!(parse_key_handle("12 34"), Err(Error::KeyHandleError));
}

#[test]
fn with_tpm_fails_if_system_files_are_not_present() {
    assert_eq!(root_key_files(None, None), Err(Error::NotInitialized));
    assert_eq!(root_key_files(Some(vec![1; 32]), None), Err(Error::NotInitialized));
    assert_eq!(root_key_files(None, Some("2164260864".to_string())), Err(Error::NotInitialized));
    assert_eq!(
        root_key_files(Some(vec![7; 32]), Some("2164260864\n".to_string())),
        Ok((vec![7; 32], 0x81000000))
    );
    assert_eq!(
        root_key_files(Some(vec![7; 32]), Some("garbage".to_string())),
        Err(Error::KeyHandleError)
    );
}

struct FailingPresenceVerifier;

impl PresenceVerifier for FailingPresenceVerifier {
    fn owner_present(&mut self) -> Result<bool, PvError> {
        Err(PvError::ImplementationSpecificError("FailingPresenceVerifier".to_string()))
    }
}

#[test]
fn with_tpm_fails_if_presence_verification_fails() {
    assert_eq!(
        verify_presence(&mut ConstPresenceVerifier::new(false)),
        Err(Error::PresenceVerificationFailed)
    );
    assert_eq!(presence_gate(Ok(false)), Err(Error::PresenceVerificationFailed));
}

#[test]
fn with_tpm_fails_if_presence_verification_errors() {
    match verify_presence(&mut FailingPresenceVerifier) {
        Err(Error::PresenceVerificationError(_)) => {}
        other => panic!("wrong result: {:#?}", other),
    }
}

#[test]
fn presence_verification_lets_a_present_owner_through() {
    assert_eq!(verify_presence(&mut ConstPresenceVerifier::new(true)), Ok(()));
    assert_eq!(presence_gate(Ok(true)), Ok(()));
}

#[test]
fn local_clear_removes_all_secrets_but_not_auth_file() {
    let plan = clear_plan(false, true, true);
    assert!(plan.remove_secrets_db);
    assert!(!plan.destroy_root_key);
    assert!(!plan.remove_auth_value);
    assert!(!plan.remove_key_handle);
}

#[test]
fn system_clear_destroys_the_root_key_and_its_files() {
    let plan = clear_plan(true, true, true);
    assert!(plan.remove_secrets_db);
    assert!(plan.destroy_root_key);
    assert!(plan.remove_auth_value);
    assert!(plan.remove_key_handle);
    let plan = clear_plan(true, true, false);
    assert!(!plan.destroy_root_key);
    assert!(plan.remove_auth_value);
    assert!(!plan.remove_key_handle);
}

#[test]
fn handle_search_returns_the_first_free_handle() {
    let probe = |h: u32| -> HandleProbe<String> {
        if h < FIRST_PERSISTENT_HANDLE + 3 {
            HandleProbe::Occupied
        } else {
            HandleProbe::Free
        }
    };
    assert_eq!(find_next_persistent_handle(&probe).ok(), Some(0x81000003));
    let free_first = |_h: u32| -> HandleProbe<String> { HandleProbe::Free };
    assert_eq!(find_next_persistent_handle(&free_first).ok(), Some(0x81000000));
}

#[test]
fn handle_search_stops_at_a_failed_probe() {
    let probe = |h: u32| -> HandleProbe<String> {
        if h == FIRST_PERSISTENT_HANDLE + 1 {
            HandleProbe::Failed("broken".to_string())
        } else {
            HandleProbe::Occupied
        }
    };
    match find_next_persistent_handle(&probe) {
        Err(HandleSearchError::Probe(h, e)) => {
            assert_eq!(h, 0x81000001);
            assert_eq!(e, "broken");
        }
        other => panic!("wrong result: {:#?}", other),
    }
}

#[test]
fn handle_search_fails_when_the_range_is_full() {
    let full = |_h: u32| -> HandleProbe<String> { HandleProbe::Occupied };
    match find_next_persistent_handle(&full) {
        Err(HandleSearchError::Exhausted) => {}
        other => panic!("wrong result: {:#?}", other),
    }
    let last_free = |h: u32| -> HandleProbe<String> {
        if h == LAST_PERSISTENT_HANDLE {
            HandleProbe::Free
        } else {
            HandleProbe::Occupied
        }
    };
    assert_eq!(find_next_persistent_handle(&last_free).ok(), Some(0x8100ffff));
}

#[test]
fn with_tpm_errors_after_system_clear() {
    let plan = clear_plan(true, true, true);
    assert!(plan.remove_auth_value && plan.remove_key_handle);
    // with both files gone, opening the store reads nothing
    assert_eq!(root_key_files(None, None), Err(Error::NotInitialized));
}

#[test]
fn cant_create_tpm_without_presence_verification() {
    assert_eq!(
        verify_presence(&mut ConstPresenceVerifier::new(false)),
        Err(Error::PresenceVerificationFailed)
    );
}

#[test]
fn handle_written_by_init_reads_back() {
    for h in [0u32, 7, 0x81000000, 0x8100ffff, u32::MAX] {
        let text = decimal_string(h as u64);
        assert_eq!(text, h.to_string());
        assert_eq!(parse_key_handle(&text), Ok(h));
        assert_eq!(root_key_files(Some(vec![9; 32]), Some(text)), Ok((vec![9; 32], h)));
    }
}

#[test]
fn handle_file_with_line_break_reads_back() {
    let text = format!("{}\n", decimal_string(0x81000002));
    assert_eq!(parse_key_handle(&text), Ok(0x81000002));
    assert_eq!(parse_key_handle("\u{2003}5\u{2029}"), Ok(5));
}

#[test]
fn const_verifier_answers_the_same_every_time() {
    let mut pv = ConstPresenceVerifier::new(true);
    for _ in 0..3 {
        assert_eq!(pv.owner_present(), Ok(true));
    }
    let mut pv = ConstPresenceVerifier::new(false);
    assert_eq!(pv.owner_present(), Ok(false));
    assert_eq!(pv.owner_present(), Ok(false));
}
