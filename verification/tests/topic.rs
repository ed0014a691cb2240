use wispmq::topic::{parse_filter, valid_topic_filter, valid_topic_name};

#[test]
fn wildcard_plus() {
    assert!(wispmq::topic::matches("sport/+/player1", "sport/tennis/player1"));
    assert!(!wispmq::topic::matches("sport/+/player1", "sport/tennis/player2"));
    assert!(wispmq::topic::matches("+/+", "/finance"));
    assert!(wispmq::topic::matches("sport/+", "sport/"));
}

#[test]
fn wildcard_hash() {
    assert!(wispmq::topic::matches("sport/#", "sport"));
    assert!(wispmq::topic::matches("sport/#", "sport/tennis/player1"));
    assert!(wispmq::topic::matches("#", "a/b/c"));
}

#[test]
fn dollar_topics() {
    assert!(!wispmq::topic::matches("#", "$SYS/broker"));
    assert!(!wispmq::topic::matches("+/monitor", "$SYS/monitor"));
    assert!(wispmq::topic::matches("$SYS/#", "$SYS/broker/load"));
}

#[test]
fn filter_validation() {
    assert!(valid_topic_filter("sport/tennis/#"));
    assert!(!valid_topic_filter("sport/tennis#"));
    assert!(!valid_topic_filter("sport/#/ranking"));
    assert!(valid_topic_filter("+/+/+"));
    assert!(!valid_topic_filter("sp+ort/#"));
    assert!(valid_topic_filter("#"));
    assert!(!valid_topic_filter("#/a"));
    assert!(!valid_topic_filter("#/"));
    assert!(valid_topic_filter("a/#"));
}

#[test]
fn name_validation() {
    assert!(valid_topic_name("a/b"));
    assert!(!valid_topic_name(""));
    assert!(!valid_topic_name("a/+"));
    assert!(!valid_topic_name("a/#"));
}

#[test]
fn shared_parse() {
    let p = parse_filter("$share/g1/sport/#").unwrap();
    assert_eq!(p.share_name, Some("g1"));
    assert_eq!(p.filter, "sport/#");
    assert!(parse_filter("$share//sport").is_none());
}

/// Matching level by level on lists of levels.
fn matches_reference(filter: &str, topic: &str) -> bool {
    let filter_levels: Vec<&str> = filter.split('/').collect();
    let topic_levels: Vec<&str> = topic.split('/').collect();

    if let Some(first) = topic_levels.first() {
        if first.starts_with('$') {
            match filter_levels.first() {
                Some(&"#") | Some(&"+") => return false,
                _ => {}
            }
        }
    }

    let mut fi = 0;
    let mut ti = 0;
    while fi < filter_levels.len() {
        let f = filter_levels[fi];
        if f == "#" {
            return true;
        }
        if ti >= topic_levels.len() {
            return false;
        }
        if f != "+" && f != topic_levels[ti] {
            return false;
        }
        fi += 1;
        ti += 1;
    }
    ti == topic_levels.len()
}

#[test]
fn matches_is_equivalent_to_the_vec_implementation() {
    let parts: [&str; 10] = [
        "#", "+", "a", "b", "", "$SYS", "$share", "#abc", "+x", "a b",
    ];

    let mut strings: Vec<String> = Vec::new();
    for a in parts {
        strings.push(a.to_string());
        for b in parts {
            strings.push(format!("{a}/{b}"));
            for c in parts {
                strings.push(format!("{a}/{b}/{c}"));
            }
        }
    }

    let mut checked = 0u64;
    for filter in &strings {
        for topic in &strings {
            assert_eq!(
                wispmq::topic::matches(filter, topic),
                matches_reference(filter, topic),
                "diverged on filter={filter:?} topic={topic:?}"
            );
            checked += 1;
        }
    }
    assert!(checked > 1_000_000, "expected a wide sweep, got {checked}");
}
