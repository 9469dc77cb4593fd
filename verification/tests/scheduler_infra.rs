use ecsctl::scheduler::infra::{
    sanitize_schedule_name, simple_hash, validate_role_arn, validate_schedule_expression,
    ScheduleProblem,
};

#[test]
fn test_valid_cron_expression() {
    assert!(validate_schedule_expression("cron(0 8 * * ? *)").is_ok());
    assert!(validate_schedule_expression("cron(30 22 * * ? 2024)").is_ok());
    assert!(validate_schedule_expression("cron(0 0 1 1 ? *)").is_ok());
}

#[test]
fn test_cron_wrong_field_count() {
    let err = validate_schedule_expression("cron(0 8 * * *)").unwrap_err();
    assert!(err.to_string().contains("expected 6 fields"));

    let err = validate_schedule_expression("cron(0 8 * * ? * extra)").unwrap_err();
    assert!(err.to_string().contains("expected 6 fields"));
}

#[test]
fn test_valid_rate_expression() {
    assert!(validate_schedule_expression("rate(5 minutes)").is_ok());
    assert!(validate_schedule_expression("rate(1 hour)").is_ok());
    assert!(validate_schedule_expression("rate(7 days)").is_ok());
    assert!(validate_schedule_expression("rate(1 minute)").is_ok());
}

#[test]
fn test_rate_empty() {
    let err = validate_schedule_expression("rate()").unwrap_err();
    assert!(err.to_string().contains("empty"));
}

#[test]
fn test_rate_invalid_value() {
    let err = validate_schedule_expression("rate(abc minutes)").unwrap_err();
    assert!(err.to_string().contains("not a positive integer"));
}

#[test]
fn test_rate_invalid_unit() {
    let err = validate_schedule_expression("rate(5 weeks)").unwrap_err();
    assert!(err.to_string().contains("not recognized"));
}

#[test]
fn test_rate_wrong_format() {
    let err = validate_schedule_expression("rate(5)").unwrap_err();
    assert!(err.to_string().contains("expected 'rate(<value> <unit>)'"));
}

#[test]
fn test_valid_at_expression() {
    assert!(validate_schedule_expression("at(2024-01-01T00:00:00)").is_ok());
    assert!(validate_schedule_expression("at(2026-12-31T23:59:59)").is_ok());
}

#[test]
fn test_at_empty() {
    let err = validate_schedule_expression("at()").unwrap_err();
    assert!(err.to_string().contains("empty"));
}

#[test]
fn test_invalid_expression_format() {
    let err = validate_schedule_expression("every 5 minutes").unwrap_err();
    assert!(err.to_string().contains("Must start with"));

    let err = validate_schedule_expression("").unwrap_err();
    assert!(err.to_string().contains("Must start with"));
}


#[test]
fn test_sanitize_normal_name() {
    let name = sanitize_schedule_name("chaodu", 0);
    assert_eq!(name, "ecsctl-scale-chaodu-to-0");

    let name = sanitize_schedule_name("my-bot", 1);
    assert_eq!(name, "ecsctl-scale-my-bot-to-1");
}

#[test]
fn test_sanitize_special_characters() {
    let name = sanitize_schedule_name("bot@special!name", 2);
    // Contains normalized chars → hash appended
    assert!(name.starts_with("ecsctl-scale-bot-special-name-"));
    assert!(name.ends_with("-to-2"));
    assert!(name.len() <= 64);
    // Different aliases that normalize the same should NOT collide
    let name2 = sanitize_schedule_name("bot-special-name", 2);
    assert_ne!(name, name2, "normalized aliases should not collide");
}

#[test]
fn test_sanitize_long_name_truncated_with_hash() {
    let long_alias = "a".repeat(100);
    let name = sanitize_schedule_name(&long_alias, 0);
    // Must fit in 64 chars
    assert!(name.len() <= 64, "name too long: {} chars", name.len());
    // Must contain standard prefix/suffix
    assert!(name.starts_with("ecsctl-scale-"));
    assert!(name.ends_with("-to-0"));
}

#[test]
fn test_sanitize_truncation_different_aliases_no_collision() {
    // Two long aliases with same prefix but different endings
    // should produce different schedule names due to hash suffix
    let alias1 = format!("{}{}", "a".repeat(50), "xxx");
    let alias2 = format!("{}{}", "a".repeat(50), "yyy");
    let name1 = sanitize_schedule_name(&alias1, 0);
    let name2 = sanitize_schedule_name(&alias2, 0);
    assert_ne!(
        name1, name2,
        "truncated aliases should not collide: {name1} vs {name2}"
    );
}

#[test]
fn test_sanitize_deterministic() {
    let name1 = sanitize_schedule_name("test-alias", 5);
    let name2 = sanitize_schedule_name("test-alias", 5);
    assert_eq!(name1, name2);
}

#[test]
fn test_sanitize_normalization_collision_prevention() {
    // Aliases that differ only in characters normalized to '-' should still
    // produce different schedule names — both short and long.

    // Short aliases (no truncation, but normalization triggers hash)
    let short1 = "web/api"; // '/' → '-'
    let short2 = "web-api"; // already '-'
    let name1 = sanitize_schedule_name(short1, 0);
    let name2 = sanitize_schedule_name(short2, 0);
    assert_ne!(
        name1, name2,
        "short aliases differing only in normalized chars should not collide"
    );
    // The non-normalized one should NOT have a hash
    assert_eq!(name2, "ecsctl-scale-web-api-to-0");
    // The normalized one SHOULD have a hash
    assert!(name1.contains("-") && name1 != "ecsctl-scale-web-api-to-0");

    // Long aliases (truncation + hash)
    let long1 = "a/b".repeat(30); // contains '/' → '-'
    let long2 = "a-b".repeat(30); // already '-'
    let name1 = sanitize_schedule_name(&long1, 0);
    let name2 = sanitize_schedule_name(&long2, 0);
    assert!(name1.len() <= 64);
    assert!(name2.len() <= 64);
    assert_ne!(
        name1, name2,
        "long aliases differing only in normalized chars should not collide"
    );
}

#[test]
fn test_sanitize_short_names_no_hash() {
    // Short names should be used as-is without hash suffix
    let name = sanitize_schedule_name("web", 0);
    assert_eq!(name, "ecsctl-scale-web-to-0");
    // No hash pattern in short names
    assert!(!name.contains("-0") || name == "ecsctl-scale-web-to-0");
}


#[test]
fn test_valid_role_arn() {
    assert!(validate_role_arn("arn:aws:iam::123456789012:role/ecsctl-scheduler-role").is_ok());
    assert!(validate_role_arn("arn:aws:iam::123456789012:role/path/to/role").is_ok());
    assert!(validate_role_arn("arn:aws-cn:iam::123456789012:role/my-role").is_ok());
    assert!(validate_role_arn("arn:aws-us-gov:iam::123456789012:role/gov-role").is_ok());
    assert!(validate_role_arn("arn:aws-iso:iam::123456789012:role/iso-role").is_ok());
    assert!(validate_role_arn("arn:aws-iso-b:iam::123456789012:role/isob-role").is_ok());
}

#[test]
fn test_role_arn_wrong_service() {
    let err = validate_role_arn("arn:aws:ecs::123456789012:service/my-svc").unwrap_err();
    assert!(err.to_string().contains("service must be 'iam'"));
}

#[test]
fn test_role_arn_wrong_resource_type() {
    let err = validate_role_arn("arn:aws:iam::123456789012:user/admin").unwrap_err();
    assert!(err.to_string().contains("must start with 'role/'"));
}

#[test]
fn test_role_arn_invalid_account() {
    let err = validate_role_arn("arn:aws:iam::not-a-number:role/my-role").unwrap_err();
    assert!(err.to_string().contains("account ID must be numeric"));
}

#[test]
fn test_role_arn_malformed() {
    let err = validate_role_arn("not-an-arn").unwrap_err();
    assert!(err.to_string().contains("invalid role ARN format"));
}

#[test]
fn test_role_arn_empty_role_name() {
    let err = validate_role_arn("arn:aws:iam::123456789012:role/").unwrap_err();
    assert!(err.to_string().contains("role name cannot be empty"));
}

#[test]
fn test_role_arn_policy_arn_rejected() {
    let err = validate_role_arn("arn:aws:iam::123456789012:policy/my-policy").unwrap_err();
    assert!(err.to_string().contains("must start with 'role/'"));
}

#[test]
fn test_role_arn_wrong_prefix() {
    // 6-part ARN-like string but prefix is not "arn"
    let err = validate_role_arn("notarn:aws:iam::123456789012:role/my-role").unwrap_err();
    assert!(err.to_string().contains("must start with 'arn:'"));
}

#[test]
fn test_role_arn_empty_account() {
    let err = validate_role_arn("arn:aws:iam:::role/my-role").unwrap_err();
    assert!(err.to_string().contains("account ID must be numeric"));
}

#[test]
fn role_arn_with_a_region() {
    let err = validate_role_arn("arn:aws:iam:eu-west-1:123456789012:role/my-role").unwrap_err();
    assert_eq!(err.kind, ScheduleProblem::ArnFormat);
    assert_eq!(
        err.to_string(),
        "invalid role ARN format: expected 'arn:aws:iam::<account-id>:role/<name>', got 'arn:aws:iam:eu-west-1:123456789012:role/my-role'"
    );
    let err = validate_role_arn("arn:aws:ecs:eu-west-1:123456789012:service/x").unwrap_err();
    assert_eq!(err.kind, ScheduleProblem::ArnService);
}

#[test]
fn hashes_of_texts() {
    assert_eq!(simple_hash(""), 0xcbf29ce484222325);
    assert_eq!(simple_hash("a"), 0xaf63dc4c8601ec8c);
    assert_eq!(simple_hash("web/api"), 0xec96a77571b731be);
    assert_eq!(simple_hash("h\u{e9}"), 0x3130f1192e1ad66f);
    let longer = (simple_hash("web/ap") ^ ('i' as u64)).wrapping_mul(0x100000001b3);
    assert_eq!(simple_hash("web/api"), longer);
}
