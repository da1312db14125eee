use voxel_engine::first_person::{AnimationPlayer, FirstPersonView, HeldItem};

fn clips(names: &[&str]) -> Vec<String> {
    names.iter().map(|s| s.to_string()).collect()
}

fn current(v: &FirstPersonView) -> Option<String> {
    v.animation_player.current_animation_name().map(|s| s.to_string())
}

#[test]
fn held_item_animation_names() {
    assert_eq!(HeldItem::default(), HeldItem::Empty);
    assert_eq!(HeldItem::Pickaxe.idle_animation(), "pickaxe_idle");
    assert_eq!(HeldItem::Pistol.walk_animation(), "pistol_walk");
    assert_eq!(HeldItem::Sword.attack_animation(), "sword_slash");
    assert_eq!(HeldItem::Empty.attack_animation(), "hands_punch");
    assert_eq!(HeldItem::Pickaxe.fallback_attack_animation(), "swing");
    assert_eq!(HeldItem::Empty.hidden_meshes(), vec!["item_pickaxe", "item_pistol", "item_sword", "pick", "pistol", "sword"]);
    assert_eq!(HeldItem::Sword.hidden_meshes(), vec!["item_pickaxe", "item_pistol", "pick", "pistol"]);
}

#[test]
fn animation_player_plays_first_match() {
    let mut p = AnimationPlayer::new();
    assert_eq!(p.add_clip("idle".to_string()), 0);
    assert_eq!(p.add_clip("walk".to_string()), 1);
    assert_eq!(p.add_clip("walk".to_string()), 2);
    assert!(p.play_by_name("walk"));
    assert_eq!(p.current_clip, Some(1));
    assert!(p.playing);
    assert!(!p.play_by_name("run"));
    assert_eq!(p.current_clip, Some(1));
    assert!(!p.play(7));
    p.pause();
    assert!(!p.playing);
    p.resume();
    assert!(p.playing);
    p.stop();
    assert!(!p.playing);
    assert_eq!(p.current_animation_name(), Some("walk"));
    assert_eq!(p.find_clip("idle"), Some(0));
}

#[test]
fn holding_an_item_hides_the_others() {
    let mut v = FirstPersonView::new();
    v.set_held_item(HeldItem::Pickaxe);
    assert!(v.is_mesh_visible("item_pickaxe"));
    assert!(v.is_mesh_visible("pick_head"));
    assert!(!v.is_mesh_visible("item_pistol"));
    assert!(!v.is_mesh_visible("big_sword_blade"));
    assert!(v.is_mesh_visible("arms"));
    v.set_held_item(HeldItem::Empty);
    assert!(!v.is_mesh_visible("pickaxe"));
    assert!(v.is_mesh_visible(""));
}

#[test]
fn item_idle_falls_back_to_generic() {
    let mut v = FirstPersonView::new();
    v.set_clips(clips(&["idle", "walk", "pickaxe_swing", "punch"]));
    assert_eq!(current(&v).as_deref(), Some("idle"));
    v.set_held_item(HeldItem::Pickaxe);
    assert_eq!(current(&v).as_deref(), Some("idle"));
    assert!(v.animation_player.looping);
    v.play_attack();
    assert_eq!(current(&v).as_deref(), Some("pickaxe_swing"));
    assert!(v.is_attacking());
    assert!(!v.animation_player.looping);
}

#[test]
fn attack_uses_fallback_and_is_not_interrupted_by_walking() {
    let mut v = FirstPersonView::new();
    v.set_clips(clips(&["idle", "walk", "punch"]));
    v.play_attack();
    assert_eq!(current(&v).as_deref(), Some("punch"));
    v.update(true);
    assert!(v.is_attacking());
    assert_eq!(current(&v).as_deref(), Some("punch"));
    v.play_walk();
    assert_eq!(current(&v).as_deref(), Some("punch"));
}

#[test]
fn finished_attack_returns_to_walk_or_idle() {
    let mut v = FirstPersonView::new();
    v.set_clips(clips(&["idle", "walk", "punch"]));
    v.play_attack();
    v.animation_player.playing = false;
    v.update(true);
    assert!(!v.is_attacking());
    assert_eq!(current(&v).as_deref(), Some("walk"));
    assert!(v.animation_player.looping);
    v.update(false);
    assert_eq!(current(&v).as_deref(), Some("idle"));
}

#[test]
fn set_same_item_changes_nothing() {
    let mut v = FirstPersonView::new();
    v.set_clips(clips(&["idle", "walk"]));
    v.play_walk();
    v.set_held_item(HeldItem::Empty);
    assert_eq!(current(&v).as_deref(), Some("walk"));
    assert!(v.toggle_detach());
    assert!(!v.toggle_detach());
}
