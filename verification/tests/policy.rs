use cargo_scan::ident::IdentPath;
use cargo_scan::policy::{Policy, PolicyLookup};

fn ex_policy() -> Policy {
    let cr = "ex";
    Policy::new(cr, "0.1", "0.1")
}

fn ex_lookup(policy: &Policy) -> PolicyLookup {
    let eff1 = IdentPath::new("libc::effect");
    let eff2 = IdentPath::new("std::effect");
    let mut lookup = PolicyLookup::from_policy(policy);
    lookup.mark_of_interest(&eff1);
    lookup.mark_of_interest(&eff2);
    lookup
}

#[test]
fn test_policy_lookup_trivial() {
    let policy = ex_policy();
    let lookup = ex_lookup(&policy);

    let foo = IdentPath::new("foo");
    let bar = IdentPath::new("bar");
    let eff = IdentPath::new("std::effect");

    println!("{:?}", policy);
    println!("{:?}", lookup);

    // this should pass since it's just an edge between two random
    // non-effectful functions
    assert!(lookup.check_edge_bool(&foo, &bar));

    // this should fail since we haven't allowed the effect
    assert!(!lookup.check_edge_bool(&foo, &eff));
}

#[test]
fn test_policy_lookup_allow() {
    let mut policy = ex_policy();
    policy.allow_simple("foo", "std::effect");
    let lookup = ex_lookup(&policy);

    let foo = IdentPath::new("foo");
    let bar = IdentPath::new("bar");
    let eff1 = IdentPath::new("std::effect");
    let eff2 = IdentPath::new("libc::effect");
    let eff3 = IdentPath::new("std::non_effect");

    println!("{:?}", policy);
    println!("{:?}", lookup);

    assert!(lookup.check_edge_bool(&foo, &eff1));
    assert!(!lookup.check_edge_bool(&foo, &eff2));
    assert!(lookup.check_edge_bool(&foo, &eff3));
    assert!(!lookup.check_edge_bool(&bar, &eff1));
    assert!(lookup.check_edge_bool(&bar, &foo));
}

#[test]
fn test_policy_lookup_require() {
    let mut policy = ex_policy();
    policy.require_simple("foo", "std::effect");
    let lookup = ex_lookup(&policy);

    let foo = IdentPath::new("foo");
    let bar = IdentPath::new("bar");
    let eff1 = IdentPath::new("std::effect");
    let eff2 = IdentPath::new("libc::effect");

    println!("{:?}", policy);
    println!("{:?}", lookup);

    // Cases the same as test_policy_lookup_allow
    assert!(lookup.check_edge_bool(&foo, &eff1));
    assert!(!lookup.check_edge_bool(&foo, &eff2));
    assert!(!lookup.check_edge_bool(&bar, &eff1));
    // New case: can't have edge from foo to bar due to requirement
    // on callers of bar
    assert!(!lookup.check_edge_bool(&bar, &foo));
    // Reverse edge is OK
    assert!(lookup.check_edge_bool(&foo, &bar));
}

#[test]
fn test_policy_lookup_1() {
    let mut policy = ex_policy();
    policy.allow_simple("foo::bar", "libc::effect");
    policy.allow_simple("foo::bar", "libc::non_effect");
    let lookup = ex_lookup(&policy);

    let bar = IdentPath::new("foo::bar");
    let eff1 = IdentPath::new("libc::effect");
    let eff2 = IdentPath::new("std::effect");
    let eff3 = IdentPath::new("libc::non_effect");
    let eff4 = IdentPath::new("std::non_effect");

    assert!(lookup.check_edge_bool(&bar, &eff1));
    assert!(!lookup.check_edge_bool(&bar, &eff2));
    assert!(lookup.check_edge_bool(&bar, &eff3));
    assert!(lookup.check_edge_bool(&bar, &eff4));
}

#[test]
fn test_policy_lookup_2() {
    let mut policy = ex_policy();
    policy.allow_simple("foo::bar", "std::effect");
    policy.require_simple("foo::bar", "libc::effect");
    policy.require_simple("foo::f1", "libc::effect");
    policy.require_simple("foo::f2", "libc::effect");
    policy.allow_simple("foo::g1", "libc::effect");
    policy.allow_simple("foo::g2", "libc::effect");
    let lookup = ex_lookup(&policy);

    let bar = IdentPath::new("foo::bar");
    let f1 = IdentPath::new("foo::f1");
    let f2 = IdentPath::new("foo::f2");
    let g1 = IdentPath::new("foo::g1");
    let g2 = IdentPath::new("foo::g2");
    let g3 = IdentPath::new("foo::g3");
    let eff1 = IdentPath::new("libc::effect");
    let eff2 = IdentPath::new("std::effect");

    assert!(lookup.check_edge_bool(&bar, &eff1));
    assert!(lookup.check_edge_bool(&bar, &eff2));
    assert!(lookup.check_edge_bool(&f1, &bar));
    assert!(lookup.check_edge_bool(&f2, &f1));
    assert!(lookup.check_edge_bool(&g1, &f1));
    assert!(lookup.check_edge_bool(&g2, &f2));
    assert!(lookup.check_edge_bool(&g2, &f1));
    assert!(lookup.check_edge_bool(&g3, &g2));
    assert!(!lookup.check_edge_bool(&g3, &f1));
    assert!(!lookup.check_edge_bool(&g3, &f2));
}

#[test]
fn test_policy_lookup_cycle() {
    // Interesting case involving cycles
    // I think this should be allowed but it's up for discussion
    // Solution is to mark program entrypoints that can't have
    // require statements

    // Notice: no allow statements
    let mut policy = ex_policy();
    policy.require_simple("foo", "libc::effect");
    policy.require_simple("bar", "libc::effect");
    let lookup = ex_lookup(&policy);

    let foo = IdentPath::new("foo");
    let bar = IdentPath::new("bar");

    assert!(lookup.check_edge_bool(&foo, &bar));
    assert!(lookup.check_edge_bool(&bar, &foo));
}

#[test]
fn test_check_edge_diagnostics() {
    let mut policy = ex_policy();
    policy.require_simple("foo", "std::effect");
    let lookup = ex_lookup(&policy);

    let foo = IdentPath::new("foo");
    let bar = IdentPath::new("bar");

    // bar -> foo fails: callers of foo must carry std::effect, and bar
    // has no allow list at all.
    let mut errs: Vec<String> = Vec::new();
    lookup.check_edge(&bar, &foo, &mut errs);
    assert_eq!(
        errs,
        vec!["No allow list for function bar with effect std::effect".to_string()]
    );

    // foo -> bar passes: nothing is required of callers of bar.
    let mut errs2: Vec<String> = Vec::new();
    lookup.check_edge(&foo, &bar, &mut errs2);
    assert!(errs2.is_empty());

    // foo has an allow list (require feeds it), but it misses libc::effect.
    let eff = IdentPath::new("libc::effect");
    let mut errs3: Vec<String> = Vec::new();
    lookup.check_edge(&foo, &eff, &mut errs3);
    assert_eq!(
        errs3,
        vec!["Allow list for function foo missing effect libc::effect".to_string()]
    );
}

#[test]
fn test_iter_requirements_after_mark() {
    let policy = ex_policy();
    let mut lookup = PolicyLookup::from_policy(&policy);
    let c = IdentPath::new("libc::effect");
    lookup.mark_of_interest(&c);
    let reqs = lookup.iter_requirements(&c);
    assert_eq!(reqs.len(), 1);
    assert_eq!(reqs[0].as_str(), "libc::effect");
}

#[test]
fn test_allow_monotonicity_scenario() {
    // an edge that fails becomes admissible once the allow is added,
    // and edges that passed keep passing
    let mut policy = ex_policy();
    let lookup1 = ex_lookup(&policy);
    let foo = IdentPath::new("foo");
    let bar = IdentPath::new("bar");
    let eff = IdentPath::new("std::effect");
    assert!(!lookup1.check_edge_bool(&foo, &eff));
    assert!(lookup1.check_edge_bool(&foo, &bar));

    policy.allow_simple("foo", "std::effect");
    let lookup2 = ex_lookup(&policy);
    assert!(lookup2.check_edge_bool(&foo, &eff));
    assert!(lookup2.check_edge_bool(&foo, &bar));
}

#[test]
fn test_mark_of_interest_self_requirement() {
    // a marked callee requires itself of its callers
    let policy = ex_policy();
    let mut lookup = PolicyLookup::from_policy(&policy);
    let c = IdentPath::new("libc::effect");
    let other = IdentPath::new("other");
    assert!(lookup.check_edge_bool(&other, &c));
    lookup.mark_of_interest(&c);
    assert!(!lookup.check_edge_bool(&other, &c));
    let reqs = lookup.iter_requirements(&c);
    assert!(reqs.iter().any(|r| r.as_str() == "libc::effect"));
}
