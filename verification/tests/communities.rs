use zebra::communities::{Communities, COMMUNITY_NO_ADVERTISE, COMMUNITY_NO_EXPORT};

const COMMUNITY_BLACKHOLE: u32 = 0xFFFF029A;

#[test]
fn push() {
    let mut com = Communities::new();
    com.push(1u32);
    com.push(2u32);
    com.push(3u32);
    assert_eq!(com.to_string(), "0:1 0:2 0:3");

    let mut com = Communities::new();
    com.push(1u32);
    com.push(COMMUNITY_BLACKHOLE);
    com.push(3u32);
    assert_eq!(com.to_string(), "0:1 blackhole 0:3");
}

#[test]
fn from_str() {
    let com = Communities::from_str("no-export 100:10 100").unwrap();
    assert_eq!(com.to_string(), "no-export 100:10 0:100");

    let com = Communities::from_str("100:10 no-export 100").unwrap();
    assert_eq!(com.to_string(), "100:10 no-export 0:100");

    let com = Communities::from_str("100 no-export 100:10").unwrap();
    assert_eq!(com.to_string(), "0:100 no-export 100:10");

    let com = Communities::from_str("4294967295 no-export 100:10").unwrap();
    assert_eq!(com.to_string(), "65535:65535 no-export 100:10");

    let com = Communities::from_str("4294967296 no-export 100:10");
    if let Some(_) = com {
        panic!("com must be None");
    }

    let com = Communities::from_str("4294967296 not-well-defined 100:10");
    if let Some(_) = com {
        panic!("com must be None");
    }

    let com = Communities::from_str("");
    if let Some(_) = com {
        panic!("com must be None");
    }

    let com = Communities::from_str("-1");
    if let Some(_) = com {
        panic!("com must be None");
    }

    let com = Communities::from_str("100:test");
    if let Some(_) = com {
        panic!("com must be None");
    }

    let com = Communities::from_str("65535:65535").unwrap();
    assert_eq!(com.to_string(), "65535:65535");

    let com = Communities::from_str("65535:65536");
    if let Some(_) = com {
        panic!("com must be None");
    }

    let com = Communities::from_str("65536:65535");
    if let Some(_) = com {
        panic!("com must be None");
    }

    let com = Communities::from_str("0").unwrap();
    assert_eq!(com.to_string(), "internet");

    let com = Communities::from_str("1").unwrap();
    assert_eq!(com.to_string(), "0:1");

    let com = Communities::from_str("no-export 100:10 100").unwrap();
    if !com.contains(&COMMUNITY_NO_EXPORT) {
        panic!("Community must contain no-export");
    }

    if com.contains(&COMMUNITY_NO_ADVERTISE) {
        panic!("Community must not contain no-advertise");
    }

    let val = Communities::parse_community("100:10").unwrap();
    if !com.contains(&val) {
        panic!("Community must contain 100:10");
    }
}

#[test]
fn to_string() {}

#[test]
fn parse_community_forms() {
    assert_eq!(Communities::parse_community("100:10"), Some((100u32 << 16) | 10));
    assert_eq!(Communities::parse_community("4294967296"), None);
    assert_eq!(Communities::parse_community("4294967295"), Some(u32::MAX));
    assert_eq!(Communities::parse_community("0:0"), Some(0));
    assert_eq!(Communities::parse_community("1:2:3"), None);
    assert_eq!(Communities::parse_community(""), None);
}

#[test]
fn render_empty_list() {
    assert_eq!(Communities::new().to_string(), "");
    let mut com = Communities::new();
    com.push(0xFFFF0000);
    assert_eq!(com.to_string(), "graceful-shutdown");
    assert_eq!(com.len(), 1);
    assert_eq!(com.get(0), 0xFFFF0000);
}
