use gamecore::command::GameCommand;
use gamecore::entity::{
    check_player_health, contact_damage, entity_expired, next_animate, player_frames, EntityTag, EntityType,
};
use gamecore::protocol::{AccountData, Data, PlayerData, SkillType};

fn player(hp: u32) -> PlayerData {
    PlayerData { uid: 3, hp, mp: 1, max_hp: 100, max_mp: 50 }
}

#[test]
fn kinds() {
    assert_eq!(EntityType::from(0), EntityType::Static);
    assert_eq!(EntityType::from(1), EntityType::Moveable);
    assert_eq!(EntityType::from(2), EntityType::Player);
    assert_eq!(EntityType::from(9), EntityType::Static);
    assert_eq!(EntityType::Player.code(), 2);
    assert_eq!(SkillType::from(0), SkillType::Shot);
    assert_eq!(SkillType::from(200), SkillType::Shot);
}

#[test]
fn user_data_layout() {
    let tag = EntityTag { id: 0x0102030405060708, texture: (0x0a0b0c0d, 4, 3), entity_type: EntityType::Player, animate: 1 };
    let d = tag.get_data();
    let bytes = d.to_le_bytes();
    assert_eq!(&bytes[0..8], &0x0102030405060708u64.to_le_bytes());
    assert_eq!(&bytes[8..12], &0x0a0b0c0du32.to_le_bytes());
    assert_eq!(bytes[12], 4);
    assert_eq!(bytes[13], 3);
    assert_eq!(bytes[14], 2);
    assert_eq!(bytes[15], 1);
}

#[test]
fn user_data_roundtrip() {
    let tag = EntityTag { id: u64::MAX, texture: (17, 255, 0), entity_type: EntityType::Moveable, animate: 8 };
    let mut back = EntityTag { id: 0, texture: (0, 0, 0), entity_type: EntityType::Static, animate: 0 };
    back.make_up_data(tag.get_data());
    assert_eq!(back, tag);
}

#[test]
fn unknown_kind_reads_static() {
    let mut t = EntityTag { id: 0, texture: (0, 0, 0), entity_type: EntityType::Player, animate: 0 };
    t.make_up_data(7u128 << 112);
    assert_eq!(t.entity_type, EntityType::Static);
}

#[test]
fn damage() {
    assert_eq!(contact_damage(player(5)), Some(player(0)));
    assert_eq!(contact_damage(player(12)), Some(player(7)));
    assert_eq!(contact_damage(player(4)), None);
}

#[test]
fn health() {
    assert!(check_player_health(Some(player(1))));
    assert!(!check_player_health(Some(player(0))));
    assert!(!check_player_health(None));
}

#[test]
fn animation_and_expiry() {
    let walk = player_frames(1);
    assert_eq!(walk, vec![0, 4, 4, 0, 8, 8]);
    assert_eq!(next_animate(&walk, 0), (2, 4));
    assert_eq!(next_animate(&walk, 2), (4, 8));
    assert_eq!(next_animate(&walk, 4), (0, 0));
    assert_eq!(player_frames(4), vec![3, 7, 7, 3, 11, 11]);
    let still = player_frames(9);
    assert_eq!(still, vec![0]);
    assert_eq!(next_animate(&still, 0), (0, 0));
    assert!(!entity_expired(10, 9));
    assert!(entity_expired(11, 9));
    assert!(!entity_expired(0, u64::MAX));
}

#[test]
fn account_bytes() {
    let a = AccountData { uid: 0x01020304, group: 7 };
    assert_eq!(a.data(), vec![4, 3, 2, 1, 7, 0, 0, 0]);
}

#[test]
fn aliases() {
    assert_eq!(GameCommand.get_aliases(), vec!["account", "a"]);
}
