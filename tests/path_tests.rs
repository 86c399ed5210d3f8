use signalk::path::{Path, PathPattern, PatternError};

#[test]
fn test_path_parsing() {
    let path = Path::new("navigation.speedOverGround");
    assert_eq!(path.segments(), &["navigation", "speedOverGround"]);
}

#[test]
fn test_path_starts_with() {
    let path = Path::new("navigation.speedOverGround");
    let prefix = Path::new("navigation");
    assert!(path.starts_with(&prefix));

    let non_prefix = Path::new("propulsion");
    assert!(!path.starts_with(&non_prefix));
}

#[test]
fn test_exact_pattern() {
    let pattern = PathPattern::new("navigation.speedOverGround").unwrap();
    assert!(pattern.matches("navigation.speedOverGround"));
    assert!(!pattern.matches("navigation.courseOverGroundTrue"));
    assert!(!pattern.matches("navigation"));
}

#[test]
fn test_suffix_wildcard() {
    let pattern = PathPattern::new("navigation.*").unwrap();
    assert!(pattern.matches("navigation.speedOverGround"));
    assert!(pattern.matches("navigation.position"));
    assert!(pattern.matches("navigation.course.rhumbline.nextPoint"));
    assert!(!pattern.matches("propulsion.port.revolutions"));
}

#[test]
fn test_mid_path_wildcard() {
    let pattern = PathPattern::new("propulsion.*.revolutions").unwrap();
    assert!(pattern.matches("propulsion.port.revolutions"));
    assert!(pattern.matches("propulsion.starboard.revolutions"));
    assert!(!pattern.matches("propulsion.port.oilPressure"));
    assert!(!pattern.matches("propulsion.revolutions"));
}

#[test]
fn test_full_wildcard() {
    let pattern = PathPattern::new("*").unwrap();
    assert!(pattern.matches("navigation.speedOverGround"));
    assert!(pattern.matches("anything.at.all"));
    assert!(pattern.matches("x"));
}

#[test]
fn star_does_not_match_empty_path() {
    let pattern = PathPattern::new("*").unwrap();
    assert!(!pattern.matches(""));
    assert!(pattern.matches("a..b"));
    let mid = PathPattern::new("a.*.c.*").unwrap();
    assert!(mid.matches("a.b.c.d"));
    assert!(!mid.matches("a.b.c.d."));
}

#[test]
fn mid_wildcard_needs_exactly_one_segment() {
    let pattern = PathPattern::new("a.*.c").unwrap();
    assert!(pattern.matches("a.X.c"));
    assert!(!pattern.matches("a.c"));
    assert!(!pattern.matches("a.X.Y.c"));
}

#[test]
fn trailing_wildcard_needs_a_suffix() {
    let pattern = PathPattern::new("navigation.*").unwrap();
    assert!(!pattern.matches("navigation"));
    assert!(!pattern.matches("navigation."));
    assert!(!pattern.matches("navigation.."));
    assert!(!pattern.matches("navigation.x."));
    assert!(!pattern.matches("navigation..x"));
    assert!(pattern.matches("navigation.x.y"));
}

#[test]
fn literal_pattern_matches_only_itself() {
    let pattern = PathPattern::new("a.b").unwrap();
    assert!(pattern.matches("a.b"));
    assert!(!pattern.matches("a.b.c"));
    assert!(!pattern.matches("a"));
    assert!(!pattern.matches("a.bc"));
}

#[test]
fn literal_segment_with_star_is_literal() {
    let pattern = PathPattern::new("a.b*").unwrap();
    assert!(pattern.matches("a.b*"));
    assert!(!pattern.matches("a.bc"));
}

#[test]
fn empty_pattern_is_refused() {
    assert_eq!(PathPattern::new("").unwrap_err(), PatternError::EmptyPattern);
}

#[test]
fn empty_segment_is_refused() {
    assert_eq!(PathPattern::new("a..b").unwrap_err(), PatternError::EmptyPattern);
    assert_eq!(PathPattern::new("a.").unwrap_err(), PatternError::EmptyPattern);
}

#[test]
fn pattern_keeps_its_text() {
    let pattern = PathPattern::new("navigation.*").unwrap();
    assert_eq!(pattern.as_str(), "navigation.*");
    let path = Path::new("a.b.c");
    assert_eq!(path.as_str(), "a.b.c");
    assert_eq!(path.segments().len(), 3);
}
