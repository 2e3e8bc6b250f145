use permsearch::{Filter, FilterSet, PartialPermissionBlock, PermissionBlock, PermissionState};

fn block(text: &str) -> PermissionBlock {
    FilterSet::parse(text).unwrap().filters[0].permissions.unwrap()
}

#[test]
fn test_from_st_mode_digit() {
    assert_eq!(
        PartialPermissionBlock::from_st_mode_digit(0),
        PartialPermissionBlock {
            read: PermissionState::UNSET,
            write: PermissionState::UNSET,
            execute: PermissionState::UNSET
        }
    );
    assert_eq!(
        PartialPermissionBlock::from_st_mode_digit(1),
        PartialPermissionBlock {
            read: PermissionState::UNSET,
            write: PermissionState::UNSET,
            execute: PermissionState::SET
        }
    );
    assert_eq!(
        PartialPermissionBlock::from_st_mode_digit(2),
        PartialPermissionBlock {
            read: PermissionState::UNSET,
            write: PermissionState::SET,
            execute: PermissionState::UNSET
        }
    );
    assert_eq!(
        PartialPermissionBlock::from_st_mode_digit(3),
        PartialPermissionBlock {
            read: PermissionState::UNSET,
            write: PermissionState::SET,
            execute: PermissionState::SET
        }
    );
    assert_eq!(
        PartialPermissionBlock::from_st_mode_digit(4),
        PartialPermissionBlock {
            read: PermissionState::SET,
            write: PermissionState::UNSET,
            execute: PermissionState::UNSET
        }
    );
    assert_eq!(
        PartialPermissionBlock::from_st_mode_digit(5),
        PartialPermissionBlock {
            read: PermissionState::SET,
            write: PermissionState::UNSET,
            execute: PermissionState::SET
        }
    );
    assert_eq!(
        PartialPermissionBlock::from_st_mode_digit(6),
        PartialPermissionBlock {
            read: PermissionState::SET,
            write: PermissionState::SET,
            execute: PermissionState::UNSET
        }
    );
    assert_eq!(
        PartialPermissionBlock::from_st_mode_digit(7),
        PartialPermissionBlock {
            read: PermissionState::SET,
            write: PermissionState::SET,
            execute: PermissionState::SET
        }
    );
}

#[test]
fn decoded_modes_render_without_wildcards() {
    assert_eq!(PermissionBlock::from_mode(0o755).render(), "rwxr-xr-x");
    assert_eq!(PermissionBlock::from_mode(0o644).render(), "rw-r--r--");
    assert_eq!(PermissionBlock::from_mode(0).render(), "---------");
    assert_eq!(PermissionBlock::from_mode(0o100640).render(), "rw-r-----");
    for mode in 0u32..512 {
        let text = PermissionBlock::from_mode(mode).render();
        assert_eq!(text.chars().count(), 9);
        for (i, c) in text.chars().enumerate() {
            let letter = ['r', 'w', 'x'][i % 3];
            assert!(c == letter || c == '-');
        }
    }
}

#[test]
fn partial_rendering() {
    assert_eq!(PartialPermissionBlock::safe_from_chars("r*x").unwrap().render(), "r*x");
    assert_eq!(PartialPermissionBlock::from_st_mode_digit(5).render(), "r-x");
}

#[test]
fn wildcards_are_compatible_with_anything() {
    let any = block("*********");
    for mode in [0u32, 0o777, 0o640, 0o111] {
        let perms = PermissionBlock::from_mode(mode);
        assert!(any.is_compatible(&perms));
        assert!(perms.is_compatible(&any));
        let clause = Filter { user_owner: None, group_owner: None, permissions: Some(any) };
        assert!(clause.matches(12, 34, &perms));
    }
}

#[test]
fn compatibility_position_by_position() {
    let pattern = block("rw*r--*--");
    assert!(pattern.is_compatible(&PermissionBlock::from_mode(0o644)));
    assert!(pattern.is_compatible(&PermissionBlock::from_mode(0o744)));
    assert!(!pattern.is_compatible(&PermissionBlock::from_mode(0o654)));
    assert!(!pattern.is_compatible(&PermissionBlock::from_mode(0o444)));
}

#[test]
fn owner_mismatch_never_matches() {
    let perms = PermissionBlock::from_mode(0o644);
    let clause = Filter { user_owner: Some(1000), group_owner: None, permissions: None };
    assert!(clause.matches(1000, 5, &perms));
    assert!(!clause.matches(1001, 5, &perms));
    let group_clause = Filter { user_owner: None, group_owner: Some(7), permissions: None };
    assert!(!group_clause.matches(1000, 8, &perms));
    let strict = Filter { user_owner: Some(1), group_owner: None, permissions: Some(block("*********")) };
    assert!(!strict.matches(2, 0, &perms));
}

#[test]
fn set_matches_any_clause() {
    let perms = PermissionBlock::from_mode(0o600);
    let a = Filter { user_owner: Some(1), group_owner: None, permissions: None };
    let b = Filter { user_owner: None, group_owner: None, permissions: Some(block("rw-------")) };
    let c = Filter { user_owner: Some(2), group_owner: None, permissions: None };
    let mut ab = FilterSet::new();
    ab.add(a);
    ab.add(b);
    let mut ba = FilterSet::new();
    ba.add(b);
    ba.add(a);
    assert_eq!(ab.filters, vec![a, b]);
    for owner in [1u32, 2, 3] {
        let expected = a.matches(owner, 0, &perms) || b.matches(owner, 0, &perms);
        assert_eq!(ab.matches(owner, 0, &perms), expected);
        assert_eq!(ba.matches(owner, 0, &perms), expected);
    }
    let mut only_c = FilterSet::new();
    only_c.add(c);
    assert!(!only_c.matches(1, 0, &PermissionBlock::from_mode(0o777)));
    assert!(!FilterSet::new().matches(1, 0, &perms));
}
