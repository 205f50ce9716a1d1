use animplay::gfx::AnimEntry;
use animplay::gfx::Animation;
use animplay::gfx::AnimationError;
use animplay::gfx::AnimationResource;
use animplay::gfx::AnimationType;
use animplay::gfx::AtlasHandle;
use animplay::gfx::EntityAction;
use animplay::gfx::update_animations;

fn atlas() -> AtlasHandle {
    AtlasHandle { id: 1 }
}

fn anim(frames: Vec<usize>, frame_time: u64, kind: AnimationType) -> Animation {
    Animation::new(atlas(), frames, frame_time, kind).unwrap()
}

#[test]
fn new_rejects_empty_frames() {
    let result = Animation::new(atlas(), vec![], 10, AnimationType::Once);
    assert_eq!(result.err().unwrap(), AnimationError::InvalidAnimation);
}

#[test]
fn new_rejects_zero_frame_time() {
    let result = Animation::new(atlas(), vec![3, 4], 0, AnimationType::Repeat);
    assert_eq!(result.err().unwrap(), AnimationError::InvalidAnimation);
}

#[test]
fn new_starts_on_first_frame() {
    let mut a = anim(vec![7, 8, 9], 10, AnimationType::Once);
    assert!(!a.finished());
    assert_eq!(a.get_type(), AnimationType::Once);
    // a delta below the frame time leaves the first frame on display
    assert_eq!(a.tick(1), 7);
}

#[test]
fn once_plays_through_and_freezes_on_last_frame() {
    let mut a = anim(vec![7, 8, 9], 10, AnimationType::Once);
    assert_eq!(a.tick(10), 8);
    assert!(!a.finished());
    assert_eq!(a.tick(10), 9);
    assert!(!a.finished());
    assert_eq!(a.tick(10), 9);
    assert!(a.finished());
    // completion is stable and the last frame stays on display
    assert_eq!(a.tick(10), 9);
    assert!(a.finished());
    assert_eq!(a.tick(3), 9);
    assert!(a.finished());
}

#[test]
fn accumulator_crosses_boundary_exactly() {
    let mut a = anim(vec![7, 8, 9], 10, AnimationType::Once);
    assert_eq!(a.tick(4), 7);
    assert_eq!(a.tick(5), 7);
    // 4 + 5 + 1 reaches the frame time exactly
    assert_eq!(a.tick(1), 8);
}

#[test]
fn overshoot_past_boundary_is_discarded() {
    let mut a = anim(vec![7, 8, 9], 10, AnimationType::Once);
    // one call crosses at most one boundary, however large the delta
    assert_eq!(a.tick(35), 8);
    // the 25 past the boundary are gone: a fresh full frame time is due
    assert_eq!(a.tick(9), 8);
    assert_eq!(a.tick(1), 9);
}

#[test]
fn repeat_wraps_around_and_never_finishes() {
    let mut a = anim(vec![7, 8, 9], 10, AnimationType::Repeat);
    let expected = [8, 9, 7, 8, 9, 7, 8, 9, 7, 8];
    for frame in expected {
        assert_eq!(a.tick(10), frame);
        assert!(!a.finished());
    }
    assert_eq!(a.get_type(), AnimationType::Repeat);
}

#[test]
fn single_frame_once_completes_on_first_crossing() {
    let mut a = anim(vec![5], 10, AnimationType::Once);
    assert_eq!(a.tick(10), 5);
    assert!(a.finished());
}

#[test]
fn despawn_kind_reports_its_type() {
    let mut a = anim(vec![5, 6], 10, AnimationType::Despawn);
    assert_eq!(a.get_type(), AnimationType::Despawn);
    assert_eq!(a.tick(10), 6);
    assert!(!a.finished());
    assert_eq!(a.tick(10), 6);
    assert!(a.finished());
}

#[test]
fn registry_get_missing_returns_nothing() {
    let table = AnimationResource::new();
    assert!(table.get("walk").is_none());
}

#[test]
fn registry_returns_copy_of_registered_definition() {
    let mut table = AnimationResource::new();
    table.insert(String::from("walk"), anim(vec![3, 4], 10, AnimationType::Repeat));
    let mut a = table.get("walk").unwrap();
    assert_eq!(a.get_type(), AnimationType::Repeat);
    assert_eq!(a.tick(10), 4);
    assert_eq!(a.tick(10), 3);
    assert!(table.get("run").is_none());
    // the copy advanced; the stored definition did not
    let mut fresh = table.get("walk").unwrap();
    assert_eq!(fresh.tick(10), 4);
}

#[test]
fn registry_overwrites_keep_the_latest() {
    let mut table = AnimationResource::new();
    table.insert(String::from("walk"), anim(vec![3, 4], 10, AnimationType::Repeat));
    table.insert(String::from("walk"), anim(vec![8, 9], 10, AnimationType::Once));
    let mut a = table.get("walk").unwrap();
    assert_eq!(a.get_type(), AnimationType::Once);
    assert_eq!(a.tick(10), 9);
}

#[test]
fn update_keeps_running_entities_and_writes_frames() {
    let mut entries = vec![
        AnimEntry { entity: 1, sprite_index: 7, animation: anim(vec![7, 8, 9], 10, AnimationType::Repeat) },
        AnimEntry { entity: 2, sprite_index: 5, animation: anim(vec![5, 6], 10, AnimationType::Once) },
    ];
    let actions = update_animations(&mut entries, 10);
    assert!(actions.is_empty());
    assert_eq!(entries.len(), 2);
    assert_eq!(entries[0].entity, 1);
    assert_eq!(entries[0].sprite_index, 8);
    assert_eq!(entries[1].entity, 2);
    assert_eq!(entries[1].sprite_index, 6);
}

#[test]
fn update_removes_animation_when_once_completes() {
    let mut entries = vec![
        AnimEntry { entity: 4, sprite_index: 5, animation: anim(vec![5, 6], 10, AnimationType::Once) },
    ];
    let actions = update_animations(&mut entries, 10);
    assert!(actions.is_empty());
    let actions = update_animations(&mut entries, 10);
    assert_eq!(actions, vec![EntityAction::RemoveAnimation { entity: 4 }]);
    assert!(entries.is_empty());
}

#[test]
fn update_issues_despawn_exactly_once() {
    let mut entries = vec![
        AnimEntry { entity: 9, sprite_index: 5, animation: anim(vec![5], 10, AnimationType::Despawn) },
    ];
    let actions = update_animations(&mut entries, 10);
    assert_eq!(actions, vec![EntityAction::Despawn { entity: 9 }]);
    assert!(entries.is_empty());
    // the entity has left the animated set: no further tick can despawn it again
    let actions = update_animations(&mut entries, 10);
    assert!(actions.is_empty());
}

#[test]
fn update_handles_a_mixed_batch_in_entity_order() {
    let mut entries = vec![
        AnimEntry { entity: 1, sprite_index: 5, animation: anim(vec![5], 10, AnimationType::Despawn) },
        AnimEntry { entity: 2, sprite_index: 7, animation: anim(vec![7, 8], 10, AnimationType::Repeat) },
        AnimEntry { entity: 3, sprite_index: 4, animation: anim(vec![4], 10, AnimationType::Once) },
    ];
    let actions = update_animations(&mut entries, 10);
    assert_eq!(
        actions,
        vec![
            EntityAction::Despawn { entity: 1 },
            EntityAction::RemoveAnimation { entity: 3 },
        ]
    );
    assert_eq!(entries.len(), 1);
    assert_eq!(entries[0].entity, 2);
    assert_eq!(entries[0].sprite_index, 8);
}
