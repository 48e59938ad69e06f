use aush::approval::{
    approval_prompt, format_command_preview, metadata_for_command, parse_approval_mode,
    should_confirm_effects, ApprovalMode, RiskLevel,
};

#[test]
fn approval_prompt_uses_human_labels() {
    let metadata = metadata_for_command("rm").expect("rm metadata should exist");
    let prompt = approval_prompt("rm", &["old.log".to_string()], &metadata);

    assert!(prompt.contains("Remove files or directories"));
    assert!(prompt.contains("High risk"));
    assert!(prompt.contains("Delete files"));
    assert!(prompt.contains("Command: rm old.log"));
    assert!(!prompt.contains("delete_file"));
}

#[test]
fn approval_mode_parser_supports_off_high_and_medium() {
    assert_eq!(parse_approval_mode("off"), ApprovalMode::Off);
    assert_eq!(parse_approval_mode("0"), ApprovalMode::Off);
    assert_eq!(parse_approval_mode("medium"), ApprovalMode::Medium);
    assert_eq!(parse_approval_mode("high"), ApprovalMode::High);
    assert_eq!(parse_approval_mode("unexpected"), ApprovalMode::High);
}

#[test]
fn approval_mode_thresholds_match_risk_levels() {
    assert!(!ApprovalMode::Off.requires_confirmation(RiskLevel::High));
    assert!(!ApprovalMode::High.requires_confirmation(RiskLevel::Medium));
    assert!(ApprovalMode::High.requires_confirmation(RiskLevel::High));
    assert!(ApprovalMode::Medium.requires_confirmation(RiskLevel::Medium));
    assert!(ApprovalMode::Medium.requires_confirmation(RiskLevel::High));
}

#[test]
fn approval_mode_parser_ignores_case_and_whitespace() {
    assert_eq!(parse_approval_mode("  OFF \n"), ApprovalMode::Off);
    assert_eq!(parse_approval_mode("Never"), ApprovalMode::Off);
    assert_eq!(parse_approval_mode("MEDIUM"), ApprovalMode::Medium);
    assert_eq!(parse_approval_mode(""), ApprovalMode::High);
    assert_eq!(ApprovalMode::from_setting(None), ApprovalMode::High);
    assert_eq!(ApprovalMode::from_setting(Some("false")), ApprovalMode::Off);
}

#[test]
fn command_preview_and_prompt_layout() {
    assert_eq!(format_command_preview("ls", &[]), "ls");
    assert_eq!(
        format_command_preview("cp", &["a".to_string(), "b c".to_string()]),
        "cp a b c"
    );
    let md = metadata_for_command("ls").unwrap();
    assert_eq!(
        approval_prompt("ls", &[], &md),
        "List directory contents\nLow risk\nEffects: Read files\n\nCommand: ls\nProceed?"
    );
    assert!(metadata_for_command("frobnicate").is_none());
    assert!(!ApprovalMode::High.requires_confirmation(RiskLevel::Low));
}

#[test]
fn confirmation_only_applies_to_high_risk_interactive_commands() {
    // An embedded executor shows no progress and its streams are not terminals.
    let rm = metadata_for_command("rm").expect("rm metadata should exist");
    let ls = metadata_for_command("ls").expect("ls metadata should exist");
    let mode = ApprovalMode::from_setting(None);

    assert!(!should_confirm_effects(false, false, mode, rm.risk, false, false));
    assert!(!should_confirm_effects(false, false, mode, ls.risk, false, false));
}

#[test]
fn confirmation_needs_every_condition() {
    let rm = metadata_for_command("rm").unwrap();
    let ls = metadata_for_command("ls").unwrap();
    assert!(should_confirm_effects(true, false, ApprovalMode::High, rm.risk, true, true));
    assert!(!should_confirm_effects(true, true, ApprovalMode::High, rm.risk, true, true));
    assert!(!should_confirm_effects(true, false, ApprovalMode::High, ls.risk, true, true));
    assert!(!should_confirm_effects(true, false, ApprovalMode::Off, rm.risk, true, true));
    assert!(!should_confirm_effects(true, false, ApprovalMode::High, rm.risk, true, false));
}
