use psl::{domain_from_suffix, suffix_from_info, BuildError, Info, Kind, List, Psl, Rule, Type};

fn rule(labels: &[&str], kind: Kind, origin: Type) -> Rule {
    Rule {
        labels: labels.iter().map(|l| l.to_string()).collect(),
        kind,
        origin,
    }
}

fn list(rules: Vec<Rule>) -> List {
    List::build(&rules).unwrap()
}

fn reduced() -> List {
    list(vec![
        rule(&["com"], Kind::Normal, Type::Icann),
        rule(&["co", "uk"], Kind::Normal, Type::Icann),
        rule(&["github", "io"], Kind::Normal, Type::Private),
    ])
}

fn kawasaki() -> List {
    list(vec![
        rule(&["kawasaki", "jp"], Kind::Wildcard, Type::Icann),
        rule(&["city", "kawasaki", "jp"], Kind::Exception, Type::Icann),
    ])
}

#[test]
fn longest_match_wins() {
    let l = list(vec![
        rule(&["uk"], Kind::Normal, Type::Icann),
        rule(&["co", "uk"], Kind::Normal, Type::Icann),
    ]);
    assert_eq!(l.find("example.co.uk"), Info { len: 5, typ: Some(Type::Icann) });
    assert_eq!(l.suffix("example.co.uk").unwrap().as_str(), "co.uk");
    assert_eq!(l.suffix("example.uk").unwrap().as_str(), "uk");
}

#[test]
fn longest_match_wins_in_either_order() {
    let l = list(vec![
        rule(&["co", "uk"], Kind::Normal, Type::Icann),
        rule(&["uk"], Kind::Normal, Type::Private),
    ]);
    let s = l.suffix("example.co.uk").unwrap();
    assert_eq!(s.as_str(), "co.uk");
    assert_eq!(s.typ(), Some(Type::Icann));
}

#[test]
fn exception_overrides_wildcard() {
    let l = kawasaki();
    assert_eq!(l.suffix("city.kawasaki.jp").unwrap().as_str(), "kawasaki.jp");
    assert_eq!(l.suffix("foo.kawasaki.jp").unwrap().as_str(), "foo.kawasaki.jp");
    assert_eq!(l.domain("city.kawasaki.jp").unwrap().as_str(), "city.kawasaki.jp");
    assert_eq!(l.domain("www.city.kawasaki.jp").unwrap().as_str(), "city.kawasaki.jp");
    assert_eq!(l.domain("a.b.foo.kawasaki.jp").unwrap().as_str(), "b.foo.kawasaki.jp");
    assert!(l.domain("foo.kawasaki.jp").is_none());
}

#[test]
fn wildcard_needs_a_label_in_front() {
    let l = kawasaki();
    let s = l.suffix("kawasaki.jp").unwrap();
    assert_eq!(s.as_str(), "jp");
    assert_eq!(s.typ(), None);
}

#[test]
fn unknown_suffix_falls_back_to_last_label() {
    let l = reduced();
    assert_eq!(l.find("example.unknownsuffix"), Info { len: 13, typ: None });
    let s = l.suffix("example.unknownsuffix").unwrap();
    assert_eq!(s.as_str(), "unknownsuffix");
    assert_eq!(s.typ(), None);
    assert!(!s.is_known());
}

#[test]
fn suffix_alone_has_no_registrable_domain() {
    let l = reduced();
    assert!(l.domain("co.uk").is_none());
    assert_eq!(l.suffix("co.uk").unwrap().as_str(), "co.uk");
    assert!(l.domain("com").is_none());
}

#[test]
fn reduced_list_end_to_end() {
    let l = reduced();
    let d = l.domain("example.com").unwrap();
    assert_eq!(d.as_str(), "example.com");
    assert_eq!(d.suffix().as_str(), "com");
    assert_eq!(d.suffix().typ(), Some(Type::Icann));

    let d = l.domain("foo.github.io").unwrap();
    assert_eq!(d.as_str(), "foo.github.io");
    assert_eq!(d.suffix().as_str(), "github.io");
    assert_eq!(d.suffix().typ(), Some(Type::Private));
    assert!(d.suffix().is_known());

    let s = l.suffix("uk").unwrap();
    assert_eq!(s.as_str(), "uk");
    assert_eq!(s.typ(), None);

    let d = l.domain("www.example.co.uk").unwrap();
    assert_eq!(d.as_str(), "example.co.uk");
    assert_eq!(d.to_string(), "example.co.uk");
    assert_eq!(d.suffix().to_string(), "co.uk");
}

#[test]
fn empty_labels_find_nothing() {
    let l = reduced();
    for d in ["", ".", "example.com.", ".example.com", "example..com", "a.."] {
        assert_eq!(l.find(d), Info { len: 0, typ: None }, "input {:?}", d);
        assert!(l.suffix(d).is_none(), "input {:?}", d);
        assert!(l.domain(d).is_none(), "input {:?}", d);
    }
}

#[test]
fn suffix_is_none_exactly_for_empty_match() {
    let l = kawasaki();
    for d in ["a.b", "x", "city.kawasaki.jp", "kawasaki.jp", "a..b", "", "jp."] {
        let info = l.find(d);
        assert_eq!(l.suffix(d).is_none(), info.len == 0, "input {:?}", d);
    }
}

#[test]
fn domain_has_one_label_more_than_its_suffix() {
    let l = reduced();
    for d in ["a.b.example.co.uk", "x.foo.github.io", "q.example.com", "deep.unknown.tld"] {
        let dm = l.domain(d).unwrap();
        let s = dm.suffix();
        assert!(dm.as_str().ends_with(s.as_str()));
        assert_eq!(dm.as_str().split('.').count(), s.as_str().split('.').count() + 1);
        assert!(d.ends_with(dm.as_str()));
    }
}

#[test]
fn find_twice_gives_the_same() {
    let l = kawasaki();
    for d in ["city.kawasaki.jp", "foo.kawasaki.jp", "other.org", "a..b"] {
        assert_eq!(l.find(d), l.find(d));
    }
}

#[test]
fn single_label_is_its_own_suffix() {
    let l = reduced();
    let s = l.suffix("localhost").unwrap();
    assert_eq!(s.as_str(), "localhost");
    assert_eq!(s.typ(), None);
    assert!(l.domain("localhost").is_none());
    assert_eq!(l.suffix("com").unwrap().typ(), Some(Type::Icann));
}

#[test]
fn unicode_labels_compare_by_bytes() {
    let l = list(vec![rule(&["公司", "cn"], Kind::Normal, Type::Icann)]);
    let d = l.domain("www.例子.公司.cn").unwrap();
    assert_eq!(d.as_str(), "例子.公司.cn");
    assert_eq!(d.suffix().as_str(), "公司.cn");
    assert_eq!(l.suffix("例子.cn").unwrap().as_str(), "cn");
}

#[test]
fn build_rejects_faulty_rules() {
    assert_eq!(List::build(&vec![]).err(), Some(BuildError::NoRules));
    assert_eq!(
        List::build(&vec![rule(&[], Kind::Normal, Type::Icann)]).err(),
        Some(BuildError::NoLabels)
    );
    assert_eq!(
        List::build(&vec![rule(&["a", ""], Kind::Normal, Type::Icann)]).err(),
        Some(BuildError::BadLabel)
    );
    assert_eq!(
        List::build(&vec![rule(&["co.uk"], Kind::Normal, Type::Icann)]).err(),
        Some(BuildError::BadLabel)
    );
    assert_eq!(
        List::build(&vec![rule(&["jp"], Kind::Exception, Type::Icann)]).err(),
        Some(BuildError::BareException)
    );
    assert_eq!(
        List::build(&vec![
            rule(&["com"], Kind::Normal, Type::Icann),
            rule(&["jp"], Kind::Exception, Type::Icann),
            rule(&[], Kind::Normal, Type::Icann),
        ])
        .err(),
        Some(BuildError::BareException)
    );
    assert!(List::build(&vec![rule(&["jp"], Kind::Wildcard, Type::Private)]).is_ok());
}

#[test]
fn suffix_from_a_given_match() {
    let s = suffix_from_info("example.com", Info { len: 3, typ: Some(Type::Private) }).unwrap();
    assert_eq!(s.as_str(), "com");
    assert_eq!(s.typ(), Some(Type::Private));
    assert!(suffix_from_info("example.com", Info { len: 0, typ: None }).is_none());
    assert!(suffix_from_info("com", Info { len: 4, typ: None }).is_none());
    // one byte of the two that encode 'é' would split it
    assert!(suffix_from_info("aé", Info { len: 1, typ: None }).is_none());
    assert_eq!(suffix_from_info("aé", Info { len: 2, typ: None }).unwrap().as_str(), "é");
}

#[test]
fn registrable_domain_over_a_given_suffix() {
    let s = suffix_from_info("www.example.co.uk", Info { len: 5, typ: None }).unwrap();
    let d = domain_from_suffix("www.example.co.uk", s).unwrap();
    assert_eq!(d.as_str(), "example.co.uk");
    assert!(domain_from_suffix("co.uk", s).is_none());
    assert!(domain_from_suffix("x.com", s).is_none());
    assert!(domain_from_suffix(".co.uk", s).is_none());
}

#[test]
fn default_type_is_icann() {
    assert_eq!(Type::default(), Type::Icann);
}
