use cargo_scan::codec::{parse_policy, serialize_policy};
use cargo_scan::ident::FnCall;
use cargo_scan::policy::Policy;

#[test]
fn test_policy_serialize_deserialize() {
    // Note: this example uses dummy strings that don't correspond
    // to real effects
    let cr = "permissions-ex";
    let mut policy = Policy::new(cr, "0.1", "0.1");
    let eff1 = FnCall::new("fs::delete", "path");
    policy.require("permissions-ex::lib::remove", "path", eff1);
    let eff2 = FnCall::new("fs::create", "path");
    policy.require("permissions-ex::lib::save_data", "path", eff2);
    let eff3 = FnCall::new("fs::write", "path");
    policy.require("permissions-ex::lib::save_data", "path", eff3);
    let eff4 = FnCall::new("process::exec", "rm -f path");
    policy.allow("permissions-ex::lib::remove", "path", eff4);
    let eff5 = FnCall::new("fs::delete", "path");
    policy.allow("permissions-ex::lib::save_data", "path", eff5);
    let eff6 = FnCall::new("fs::append", "my_app.log");
    policy.allow("permissions-ex::lib::prepare_data", "", eff6);

    println!("Policy example: {:?}", policy);

    let policy_text = serialize_policy(&policy);
    println!("Policy serialized: {}", policy_text);

    let policy2: Policy = parse_policy(policy_text.as_str()).unwrap();
    println!("Policy deserialized again: {:?}", policy2);

    assert_eq!(policy, policy2);
}

#[test]
fn test_serialize_exact_text() {
    let mut policy = Policy::new("ex", "0.1", "0.2");
    policy.allow_simple("foo", "std::effect");
    let text = serialize_policy(&policy);
    let expected = "crate_name = \"ex\"\ncrate_version = \"0.1\"\npolicy_version = \"0.2\"\n[[statements]]\ntype = \"allow\"\nregion_path = \"foo\"\nregion_args = \"\"\neffect_path = \"std::effect\"\neffect_args = \"\"\n";
    assert_eq!(text, expected);
}

#[test]
fn test_round_trip_with_escapes() {
    let mut policy = Policy::new("odd\"name", "0.\\1", "a\nb");
    let eff = FnCall::new("fs::write", "a \"quoted\" arg");
    policy.require("pkg::f", "line\r\nbreak", eff);
    policy.trust("pkg::helper");
    let text = serialize_policy(&policy);
    let policy2 = parse_policy(text.as_str()).unwrap();
    assert_eq!(policy, policy2);
}

#[test]
fn test_parse_rejects_malformed() {
    assert!(parse_policy("").is_none());
    assert!(parse_policy("crate_name = \"x\"").is_none());
    assert!(parse_policy("not a policy at all").is_none());
    // a truncated header
    assert!(parse_policy("crate_name = \"ex\"\ncrate_version = \"0.1\"\n").is_none());
    // an unknown statement type
    let bad = "crate_name = \"ex\"\ncrate_version = \"0.1\"\npolicy_version = \"0.1\"\n[[statements]]\ntype = \"permit\"\nregion_path = \"foo\"\nregion_args = \"\"\n";
    assert!(parse_policy(bad).is_none());
}

#[test]
fn test_parse_accepts_trust() {
    let mut policy = Policy::new("ex", "0.1", "0.1");
    policy.trust("pkg::helper");
    let text = serialize_policy(&policy);
    let policy2 = parse_policy(text.as_str()).unwrap();
    assert_eq!(policy, policy2);
    assert_eq!(policy2.statements().len(), 1);
}

#[test]
fn test_empty_policy_round_trip() {
    let policy = Policy::new("ex", "1.0.0", "0.1");
    let text = serialize_policy(&policy);
    let policy2 = parse_policy(text.as_str()).unwrap();
    assert_eq!(policy, policy2);
    assert_eq!(policy2.crate_name(), "ex");
    assert_eq!(policy2.crate_version(), "1.0.0");
    assert_eq!(policy2.policy_version(), "0.1");
}

#[test]
fn test_reparse_policy() {
    let mut policy = Policy::new("ex", "0.1", "0.1");
    policy.require_simple("foo", "std::effect");
    policy.allow_simple("foo", "libc::effect");
    let back = cargo_scan::codec::reparse_policy(&policy);
    assert_eq!(policy, back);
}
