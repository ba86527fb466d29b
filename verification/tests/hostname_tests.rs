use dns_resolution::hostname::Hostname;

#[test]
fn lowers_ascii_capitals() {
    assert_eq!(Hostname::new("Example.COM").as_str(), "example.com");
    assert_eq!(Hostname::new("AZ-az.09").as_str(), "az-az.09");
}

#[test]
fn keeps_characters_next_to_the_capitals() {
    // '@' comes right before 'A' and '[' right after 'Z'.
    assert_eq!(Hostname::new("@A[Z`").as_str(), "@a[z`");
}

#[test]
fn strips_one_trailing_dot() {
    assert_eq!(Hostname::new("www.example.com.").as_str(), "www.example.com");
}

#[test]
fn strips_every_trailing_dot() {
    assert_eq!(Hostname::new("example.com...").as_str(), "example.com");
}

#[test]
fn keeps_inner_and_leading_dots() {
    assert_eq!(Hostname::new(".a..b.").as_str(), ".a..b");
}

#[test]
fn root_and_empty_names_are_empty() {
    assert_eq!(Hostname::new(".").as_str(), "");
    assert_eq!(Hostname::new("").as_str(), "");
    assert_eq!(Hostname::new("....").as_str(), "");
}

#[test]
fn leaves_non_ascii_letters_alone() {
    assert_eq!(Hostname::new("B\u{dc}CHER.Example").as_str(), "b\u{dc}cher.example");
}

#[test]
fn spellings_of_one_host_are_equal() {
    let plain = Hostname::new("known.test");
    let shouted = Hostname::new("KNOWN.Test.");
    assert!(plain.equals(&shouted));
    assert_eq!(plain, shouted);
}

#[test]
fn different_hosts_are_not_equal() {
    let known = Hostname::new("known.test");
    let unknown = Hostname::new("unknown.test");
    assert!(!known.equals(&unknown));
    assert_ne!(known, unknown);
}

#[test]
fn normalizing_twice_is_normalizing_once() {
    let once = Hostname::new("MiXed.Case.Test..");
    let twice = Hostname::new(once.as_str());
    assert_eq!(once, twice);
    assert_eq!(twice.as_str(), "mixed.case.test");
}

#[test]
fn clone_is_the_same_name() {
    let name = Hostname::new("Clone.Test.");
    let copy = name.clone();
    assert!(name.equals(&copy));
    assert_eq!(copy.as_str(), "clone.test");
}
