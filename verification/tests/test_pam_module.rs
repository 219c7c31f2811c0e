use pam_linuxcampam::pam::pam_module::{
    after_account, after_confirmation, after_service, PamStep, check_account, confirmation_step, daemon_verdict, needs_confirmation, welcome_after_args,
    welcome_message, ConfirmationReply, ConfirmationStep, PAM_AUTHINFO_UNAVAIL, PAM_AUTH_ERR,
    PAM_IGNORE, PAM_SILENT, PAM_SUCCESS, PAM_USER_UNKNOWN,
};

#[test]
fn account_checks() {
    assert_eq!(check_account(1000, None), Some(PAM_USER_UNKNOWN));
    assert_eq!(check_account(1000, Some(999)), Some(PAM_IGNORE));
    assert_eq!(check_account(1000, Some(1000)), None);
    assert_eq!(check_account(0, Some(0)), None);
}

#[test]
fn confirmation_is_skipped_for_exempt_services() {
    let exempt = vec!["gdm-password".to_string(), "sddm".to_string()];
    assert!(!needs_confirmation(true, Some("sddm"), &exempt));
    assert!(needs_confirmation(true, Some("sudo"), &exempt));
    assert!(needs_confirmation(true, None, &exempt));
    assert!(!needs_confirmation(false, Some("sudo"), &exempt));
}

#[test]
fn confirmation_replies() {
    assert_eq!(confirmation_step(&ConfirmationReply::Unavailable), ConfirmationStep::Stop(PAM_AUTHINFO_UNAVAIL));
    assert_eq!(confirmation_step(&ConfirmationReply::Failed), ConfirmationStep::Stop(PAM_AUTH_ERR));
    assert_eq!(confirmation_step(&ConfirmationReply::NoFunction), ConfirmationStep::Proceed);
    assert_eq!(confirmation_step(&ConfirmationReply::Answered(None)), ConfirmationStep::Proceed);
    assert_eq!(confirmation_step(&ConfirmationReply::Answered(Some(String::new()))), ConfirmationStep::Proceed);
    assert_eq!(
        confirmation_step(&ConfirmationReply::Answered(Some("hunter2".to_string()))),
        ConfirmationStep::PasswordGiven(PAM_IGNORE)
    );
}

#[test]
fn daemon_answers() {
    assert_eq!(daemon_verdict("AUTH_SUCCESS"), PAM_SUCCESS);
    assert_eq!(daemon_verdict("HW_OK | AUTH_SUCCESS"), PAM_SUCCESS);
    assert_eq!(daemon_verdict("AUTH_FAIL"), PAM_AUTH_ERR);
    assert_eq!(daemon_verdict(""), PAM_AUTH_ERR);
}

#[test]
fn welcome_text() {
    assert_eq!(
        welcome_message(true, 0, "LinuxCamPAM: Welcome, %u!", "vlad").as_deref(),
        Some("LinuxCamPAM: Welcome, vlad!")
    );
    assert_eq!(welcome_message(true, 0, "%u%u%", "a").as_deref(), Some("aa%"));
    assert_eq!(welcome_message(true, PAM_SILENT, "Hi %u", "a"), None);
    assert_eq!(welcome_message(false, 0, "Hi %u", "a"), None);
    assert_eq!(welcome_message(true, 0, "%u", ""), None);
}

#[test]
fn no_welcome_argument() {
    assert!(welcome_after_args(true, &vec!["debug".to_string()]));
    assert!(!welcome_after_args(true, &vec!["debug".to_string(), "no_welcome".to_string()]));
    assert!(!welcome_after_args(false, &Vec::new()));
}

#[test]
fn authentication_steps() {
    assert_eq!(after_account(1000, None, false, "bob"), PamStep::Finish(PAM_USER_UNKNOWN));
    assert_eq!(after_account(1000, Some(5), true, "bob"), PamStep::Finish(PAM_IGNORE));
    assert_eq!(after_account(1000, Some(1000), true, "bob"), PamStep::LookUpService);
    assert_eq!(after_account(0, Some(5), false, "bob"), PamStep::Ask("AUTH_REQUEST bob".to_string()));
    let exempt = vec!["sudo".to_string()];
    assert_eq!(after_service(Some("sudo"), &exempt, "bob"), PamStep::Ask("AUTH_REQUEST bob".to_string()));
    assert_eq!(after_service(Some("login"), &exempt, "bob"), PamStep::Confirm);
    assert_eq!(after_service(None, &exempt, "bob"), PamStep::Confirm);
    assert_eq!(
        after_confirmation(&ConfirmationReply::Answered(None), "bob"),
        PamStep::Ask("AUTH_REQUEST bob".to_string())
    );
    assert_eq!(
        after_confirmation(&ConfirmationReply::Answered(Some("secret".to_string())), "bob"),
        PamStep::Finish(PAM_IGNORE)
    );
    assert_eq!(after_confirmation(&ConfirmationReply::Failed, "bob"), PamStep::Finish(PAM_AUTH_ERR));
}
