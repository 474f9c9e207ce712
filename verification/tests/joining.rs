use idna_mapping::joining::{
    joining_type, left_or_dual_joining_mask, right_or_dual_joining_mask, JoiningType,
};

const ALL: [JoiningType; 6] = [
    JoiningType::DualJoining,
    JoiningType::JoinCausing,
    JoiningType::LeftJoining,
    JoiningType::NonJoining,
    JoiningType::RightJoining,
    JoiningType::Transparent,
];

#[test]
fn left_or_dual_mask_meets_left_and_dual_only() {
    let mask = left_or_dual_joining_mask();
    assert!(mask.intersects(JoiningType::LeftJoining.to_mask()));
    assert!(!mask.intersects(JoiningType::RightJoining.to_mask()));
    for t in ALL {
        let expected = t == JoiningType::LeftJoining || t == JoiningType::DualJoining;
        assert_eq!(mask.intersects(t.to_mask()), expected);
        assert_eq!(t.to_mask().intersects(mask), expected);
    }
}

#[test]
fn right_or_dual_mask_meets_right_and_dual_only() {
    let mask = right_or_dual_joining_mask();
    assert!(mask.intersects(JoiningType::RightJoining.to_mask()));
    assert!(!mask.intersects(JoiningType::LeftJoining.to_mask()));
    for t in ALL {
        let expected = t == JoiningType::RightJoining || t == JoiningType::DualJoining;
        assert_eq!(mask.intersects(t.to_mask()), expected);
    }
}

#[test]
fn predefined_masks_share_dual_joining() {
    assert!(left_or_dual_joining_mask().intersects(right_or_dual_joining_mask()));
}

#[test]
fn single_masks_meet_only_themselves() {
    for a in ALL {
        for b in ALL {
            assert_eq!(a.to_mask().intersects(b.to_mask()), a == b);
        }
    }
}

#[test]
fn only_transparent_is_transparent() {
    for t in ALL {
        assert_eq!(t.is_transparent(), t == JoiningType::Transparent);
    }
    assert!(JoiningType::Transparent.is_transparent());
    assert!(!JoiningType::NonJoining.is_transparent());
}

#[test]
fn from_code_follows_the_order_of_the_categories() {
    for (code, t) in ALL.iter().enumerate() {
        assert_eq!(JoiningType::from_code(code as u8), *t);
    }
}

#[test]
fn joining_type_of_known_codepoints() {
    assert_eq!(joining_type('a'), JoiningType::NonJoining);
    assert_eq!(joining_type('.'), JoiningType::NonJoining);
    assert_eq!(joining_type('\u{30ab}'), JoiningType::NonJoining);
    assert_eq!(joining_type('\u{06be}'), JoiningType::DualJoining);
    assert_eq!(joining_type('\u{10acd}'), JoiningType::LeftJoining);
    assert_eq!(joining_type('\u{062f}'), JoiningType::RightJoining);
    assert_eq!(joining_type('\u{1e94b}'), JoiningType::Transparent);
    assert_eq!(joining_type('\u{0640}'), JoiningType::JoinCausing);
    assert_eq!(joining_type('\u{10ffff}'), JoiningType::NonJoining);
}

#[test]
fn joining_type_feeds_the_masks() {
    assert!(joining_type('\u{06be}').to_mask().intersects(left_or_dual_joining_mask()));
    assert!(joining_type('\u{06be}').to_mask().intersects(right_or_dual_joining_mask()));
    assert!(joining_type('\u{062f}').to_mask().intersects(right_or_dual_joining_mask()));
    assert!(!joining_type('\u{062f}').to_mask().intersects(left_or_dual_joining_mask()));
    assert!(joining_type('\u{200d}').is_transparent() == false);
    assert!(joining_type('\u{0300}').is_transparent());
}
