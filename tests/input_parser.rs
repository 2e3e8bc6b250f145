use std::str::FromStr;

use permsearch::{Filter, FilterSet, ParseError, PartialPermissionBlock, PermissionBlock, PermissionState};

fn unset() -> PartialPermissionBlock {
    PartialPermissionBlock {
        read: PermissionState::UNSET,
        write: PermissionState::UNSET,
        execute: PermissionState::UNSET,
    }
}

#[test]
fn test_safe_from_chars() {
    assert!(PartialPermissionBlock::safe_from_chars("").is_err());
    assert!(PartialPermissionBlock::safe_from_chars("🦀").is_err());
    assert!(PartialPermissionBlock::safe_from_chars("00000000a").is_err());
    assert!(PartialPermissionBlock::safe_from_chars("000000000").is_err());
    assert!(PartialPermissionBlock::safe_from_chars("wwx").is_err());
    assert!(PartialPermissionBlock::safe_from_chars("w--").is_err());
    assert_eq!(
        PartialPermissionBlock::safe_from_chars("---").unwrap(),
        PartialPermissionBlock {
            read: PermissionState::UNSET,
            write: PermissionState::UNSET,
            execute: PermissionState::UNSET
        }
    );
    assert_eq!(
        PartialPermissionBlock::safe_from_chars("*--").unwrap(),
        PartialPermissionBlock {
            read: PermissionState::WILDCARD,
            write: PermissionState::UNSET,
            execute: PermissionState::UNSET
        }
    );
    assert_eq!(
        PartialPermissionBlock::safe_from_chars("r--").unwrap(),
        PartialPermissionBlock {
            read: PermissionState::SET,
            write: PermissionState::UNSET,
            execute: PermissionState::UNSET
        }
    );
    assert_eq!(
        PartialPermissionBlock::safe_from_chars("*-*").unwrap(),
        PartialPermissionBlock {
            read: PermissionState::WILDCARD,
            write: PermissionState::UNSET,
            execute: PermissionState::WILDCARD
        }
    );
    assert_eq!(
        PartialPermissionBlock::safe_from_chars("rwx").unwrap(),
        PartialPermissionBlock {
            read: PermissionState::SET,
            write: PermissionState::SET,
            execute: PermissionState::SET
        }
    );
    assert_eq!(
        PartialPermissionBlock::safe_from_chars("rw*").unwrap(),
        PartialPermissionBlock {
            read: PermissionState::SET,
            write: PermissionState::SET,
            execute: PermissionState::WILDCARD
        }
    );
}

#[test]
fn safe_from_chars_error_kinds() {
    assert_eq!(PartialPermissionBlock::safe_from_chars("🦀"), Err(ParseError::NonAscii));
    assert_eq!(PartialPermissionBlock::safe_from_chars("rw"), Err(ParseError::InvalidLength));
    assert_eq!(
        PartialPermissionBlock::safe_from_chars("wwx"),
        Err(ParseError::InvalidCharacter { character: 'w', position: 0 })
    );
    assert_eq!(
        PartialPermissionBlock::safe_from_chars("r-r"),
        Err(ParseError::InvalidCharacter { character: 'r', position: 2 })
    );
}

#[test]
fn test_all() {
    assert_eq!(
        FilterSet::from_str("rwx------").unwrap(),
        FilterSet {
            filters: vec![Filter {
                user_owner: None,
                group_owner: None,
                permissions: Some(PermissionBlock {
                    user: PartialPermissionBlock {
                        read: PermissionState::SET,
                        write: PermissionState::SET,
                        execute: PermissionState::SET
                    },
                    group: PartialPermissionBlock {
                        read: PermissionState::UNSET,
                        write: PermissionState::UNSET,
                        execute: PermissionState::UNSET
                    },
                    other: PartialPermissionBlock {
                        read: PermissionState::UNSET,
                        write: PermissionState::UNSET,
                        execute: PermissionState::UNSET
                    }
                })
            }]
        }
    );
    assert_eq!(
        FilterSet::from_str("g1000").unwrap(),
        FilterSet {
            filters: vec![Filter {
                user_owner: None,
                group_owner: Some(1000),
                permissions: None
            }]
        }
    );
    assert_eq!(
        FilterSet::from_str("---------g1000").unwrap(),
        FilterSet {
            filters: vec![Filter {
                user_owner: None,
                group_owner: Some(1000),
                permissions: Some(PermissionBlock {
                    user: unset(),
                    group: unset(),
                    other: unset()
                })
            }]
        }
    );
    assert_eq!(
        FilterSet::from_str("---------g1000u1000").unwrap(),
        FilterSet {
            filters: vec![Filter {
                user_owner: Some(1000),
                group_owner: Some(1000),
                permissions: Some(PermissionBlock {
                    user: unset(),
                    group: unset(),
                    other: unset()
                })
            }]
        }
    );
    assert_eq!(
        FilterSet::from_str("---------u1000").unwrap(),
        FilterSet {
            filters: vec![Filter {
                user_owner: Some(1000),
                group_owner: None,
                permissions: Some(PermissionBlock {
                    user: unset(),
                    group: unset(),
                    other: unset()
                })
            }]
        }
    );
}

#[test]
fn empty_policies_are_refused() {
    assert_eq!(FilterSet::parse(""), Err(ParseError::NoValidFilter));
    assert_eq!(FilterSet::parse(","), Err(ParseError::NoValidFilter));
    assert_eq!(FilterSet::parse(",,,"), Err(ParseError::NoValidFilter));
    assert_eq!(FilterSet::parse("abc,xyz"), Err(ParseError::NoValidFilter));
}

#[test]
fn malformed_patterns_are_refused() {
    assert!(FilterSet::parse("00000000a").is_err());
    assert!(FilterSet::parse("wwx").is_err());
}

#[test]
fn markers_in_any_order_and_place() {
    let a = FilterSet::parse("u1000g1000rwx------").unwrap();
    assert_eq!(a.filters.len(), 1);
    assert_eq!(a.filters[0].user_owner, Some(1000));
    assert_eq!(a.filters[0].group_owner, Some(1000));
    // the pattern only counts at the start of a clause
    assert_eq!(a.filters[0].permissions, None);
    let b = FilterSet::parse("g7u8").unwrap();
    assert_eq!(b.filters[0].user_owner, Some(8));
    assert_eq!(b.filters[0].group_owner, Some(7));
}

#[test]
fn first_marker_is_taken() {
    let set = FilterSet::parse("u1u2xg05g6").unwrap();
    assert_eq!(set.filters[0].user_owner, Some(1));
    assert_eq!(set.filters[0].group_owner, Some(5));
    let skip = FilterSet::parse("uxu42").unwrap();
    assert_eq!(skip.filters[0].user_owner, Some(42));
}

#[test]
fn several_clauses_keep_their_order() {
    let set = FilterSet::parse("u1,,g2,nothing,rwxr-xr-x").unwrap();
    assert_eq!(set.filters.len(), 3);
    assert_eq!(set.filters[0].user_owner, Some(1));
    assert_eq!(set.filters[1].group_owner, Some(2));
    assert_eq!(set.filters[2].permissions.unwrap().render(), "rwxr-xr-x");
}

#[test]
fn ids_must_fit_in_32_bits() {
    assert_eq!(
        FilterSet::parse("u4294967295").unwrap().filters[0].user_owner,
        Some(4294967295)
    );
    assert_eq!(FilterSet::parse("u4294967296"), Err(ParseError::IdTooLarge));
    assert_eq!(FilterSet::parse("rwx------,g99999999999"), Err(ParseError::IdTooLarge));
    assert_eq!(
        FilterSet::parse("u0000000000000001").unwrap().filters[0].user_owner,
        Some(1)
    );
}

#[test]
fn pattern_round_trip() {
    for text in ["r*x-w-*-*", "---------", "rwxrwxrwx", "*********", "r-x*w*--x"] {
        let set = FilterSet::parse(text).unwrap();
        assert_eq!(set.filters.len(), 1);
        assert_eq!(set.filters[0].user_owner, None);
        assert_eq!(set.filters[0].group_owner, None);
        assert_eq!(set.filters[0].permissions.unwrap().render(), text);
    }
}

#[test]
fn clause_rendering() {
    let set = FilterSet::parse("---------g1000u1000,g0,rw-r--r--").unwrap();
    assert_eq!(set.filters[0].render(), "u1000 g1000 ---------");
    assert_eq!(set.filters[1].render(), "g0");
    assert_eq!(set.filters[2].render(), "rw-r--r--");
}
