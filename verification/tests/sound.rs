use animplay::sound::MusicAction;
use animplay::sound::PlayMusic;
use animplay::sound::PlaySFX;
use animplay::sound::SfxAction;
use animplay::sound::SoundHandle;
use animplay::sound::SoundResource;
use animplay::sound::play_music;
use animplay::sound::play_sfx;
use animplay::sound::stop_music;

fn table() -> SoundResource {
    let mut sounds = SoundResource::new();
    sounds.insert(String::from("x"), SoundHandle { id: 10 });
    sounds.insert(String::from("y"), SoundHandle { id: 20 });
    sounds
}

#[test]
fn sound_registry_get_missing_returns_nothing() {
    let sounds = table();
    assert!(sounds.get("missing").is_none());
}

#[test]
fn registry_resolves_registered_names() {
    let sounds = table();
    assert_eq!(sounds.get("x"), Some(SoundHandle { id: 10 }));
    assert_eq!(sounds.get("y"), Some(SoundHandle { id: 20 }));
}

#[test]
fn sound_registry_overwrites_keep_the_latest() {
    let mut sounds = table();
    sounds.insert(String::from("x"), SoundHandle { id: 30 });
    assert_eq!(sounds.get("x"), Some(SoundHandle { id: 30 }));
}

#[test]
fn sfx_spawns_one_shot_for_registered_name() {
    let sounds = table();
    let events = vec![PlaySFX { name: String::from("x") }];
    let actions = play_sfx(&sounds, &events);
    assert_eq!(actions, vec![SfxAction::Spawn(SoundHandle { id: 10 })]);
}

#[test]
fn sfx_missing_name_reports_and_spares_the_rest() {
    let sounds = table();
    let events = vec![
        PlaySFX { name: String::from("missing") },
        PlaySFX { name: String::from("x") },
        PlaySFX { name: String::from("y") },
    ];
    let actions = play_sfx(&sounds, &events);
    assert_eq!(
        actions,
        vec![
            SfxAction::SoundNotFound(String::from("missing")),
            SfxAction::Spawn(SoundHandle { id: 10 }),
            SfxAction::Spawn(SoundHandle { id: 20 }),
        ]
    );
}

#[test]
fn music_starts_one_track_when_silent() {
    let sounds = table();
    let events = vec![PlayMusic { name: String::from("x") }];
    let actions = play_music(&sounds, &events, false);
    assert_eq!(actions, vec![MusicAction::Start(SoundHandle { id: 10 })]);
}

#[test]
fn music_second_request_stops_the_first_before_starting() {
    let sounds = table();
    let events = vec![
        PlayMusic { name: String::from("x") },
        PlayMusic { name: String::from("y") },
    ];
    let actions = play_music(&sounds, &events, false);
    assert_eq!(
        actions,
        vec![
            MusicAction::Start(SoundHandle { id: 10 }),
            MusicAction::StopCurrent,
            MusicAction::Start(SoundHandle { id: 20 }),
        ]
    );
}

#[test]
fn music_missing_name_still_stops_the_previous_track() {
    let sounds = table();
    let events = vec![PlayMusic { name: String::from("missing") }];
    let actions = play_music(&sounds, &events, true);
    assert_eq!(
        actions,
        vec![
            MusicAction::StopCurrent,
            MusicAction::SoundNotFound(String::from("missing")),
        ]
    );
}

#[test]
fn music_missing_name_when_silent_only_reports() {
    let sounds = table();
    let events = vec![PlayMusic { name: String::from("missing") }];
    let actions = play_music(&sounds, &events, false);
    assert_eq!(actions, vec![MusicAction::SoundNotFound(String::from("missing"))]);
}

#[test]
fn stop_music_is_a_noop_when_nothing_plays() {
    assert!(!stop_music(false));
}

#[test]
fn stop_music_stops_the_playing_track() {
    assert!(stop_music(true));
}
