//! The sound side: the name-keyed registry of playable audio handles, the
//! play/stop request events, and the per-tick decision logic of the sound
//! player. The engine driver applies the returned actions in order: spawning
//! playback entities, despawning the looping music entity, and reporting
//! unresolved names.

use vstd::prelude::*;

use crate::table::lemma_table_absent;
use crate::table::lemma_table_found;
use crate::table::lemma_table_push;
use crate::table::table_map_of;

verus! {

/// Identifier standing for a loaded audio source owned by the engine; the
/// sound core never looks inside it, it only hands it back to the driver.
#[derive(Clone, Copy, Debug, PartialEq, Eq, Structural)]
pub struct SoundHandle {
    pub id: u64,
}

/// The name-keyed registry mapping a logical sound name to its playable
/// audio handle, populated by setup code at startup and read when a play
/// request fires. Registering a name twice keeps the latest handle.
pub struct SoundResource {
    entries: Vec<(String, SoundHandle)>,
}

impl View for SoundResource {
    type V = Map<Seq<char>, SoundHandle>;

    closed spec fn view(&self) -> Map<Seq<char>, SoundHandle> {
        table_map_of(self.entries@)
    }
}

impl SoundResource {
    pub fn new() -> (table: Self)
        ensures
            table@ == Map::<Seq<char>, SoundHandle>::empty(),
    {
        SoundResource { entries: Vec::new() }
    }

    /// Registers `handle` under `name`, overwriting any earlier registration
    /// of that name.
    pub fn insert(&mut self, name: String, handle: SoundHandle)
        ensures
            final(self)@ == old(self)@.insert(name@, handle),
    {
        proof {
            lemma_table_push(self.entries@, name, handle);
        }
        self.entries.push((name, handle));
    }

    /// Returns the handle registered under `name`, or nothing if the name is
    /// unregistered. Non-mutating.
    pub fn get(&self, name: &str) -> (result: Option<SoundHandle>)
        ensures
            result == self@.get(name@),
    {
        let key: String = name.to_owned();
        let mut i: usize = self.entries.len();
        while i > 0
            invariant
                i <= self.entries@.len(),
                key@ == name@,
                forall|j: int| i <= j < self.entries@.len()
                    ==> (#[trigger] self.entries@[j].0)@ != name@,
            decreases i,
        {
            i = i - 1;
            if self.entries[i].0 == key {
                proof {
                    lemma_table_found(self.entries@, i as int, name@);
                }
                return Some(self.entries[i].1);
            }
        }
        proof {
            lemma_table_absent(self.entries@, name@);
        }
        None
    }
}

/// Request: play the named sound once, fire-and-forget.
pub struct PlaySFX {
    pub name: String,
}

/// Request: make the named sound the one looping music track.
pub struct PlayMusic {
    pub name: String,
}

/// Request: stop the looping music track, if any.
pub struct StopMusic {}

/// Marker carried by the one entity that represents the active looping music
/// track; the driver tags the entity it spawns for a `Start` action with it.
pub struct NowPlaying {}

/// What the engine driver must do for one `PlaySFX` request.
#[derive(Debug, PartialEq)]
pub enum SfxAction {
    /// Spawn a playback entity for this handle, configured not to loop and
    /// to destroy itself when playback completes.
    Spawn(SoundHandle),
    /// The name is not registered: report the recoverable condition (a
    /// warning log), spawn nothing, and carry on with the next request.
    SoundNotFound(String),
}

/// The action owed for one `PlaySFX` request: the handle under the requested
/// name, or a not-found report carrying the name.
pub open spec fn sfx_action_for(sounds: Map<Seq<char>, SoundHandle>, request: PlaySFX) -> SfxAction {
    if sounds.contains_key(request.name@) {
        SfxAction::Spawn(sounds[request.name@])
    } else {
        SfxAction::SoundNotFound(request.name)
    }
}

/// Decides the driver's response to a batch of `PlaySFX` requests: one
/// action per request, in request order, each depending on its own request
/// alone, so an unresolved name leaves every other request untouched.
pub fn play_sfx(sounds: &SoundResource, events: &Vec<PlaySFX>) -> (actions: Vec<SfxAction>)
    ensures
        actions@.len() == events@.len(),
        forall|i: int| 0 <= i < events@.len()
            ==> actions@[i] == sfx_action_for(sounds@, #[trigger] events@[i]),
{
    let mut actions: Vec<SfxAction> = Vec::new();
    let mut i: usize = 0;
    let n: usize = events.len();
    while i < n
        invariant
            n == events@.len(),
            i <= n,
            actions@.len() == i,
            forall|j: int| 0 <= j < i
                ==> actions@[j] == sfx_action_for(sounds@, #[trigger] events@[j]),
        decreases n - i,
    {
        match sounds.get(events[i].name.as_str()) {
            Some(handle) => {
                actions.push(SfxAction::Spawn(handle));
            },
            None => {
                actions.push(SfxAction::SoundNotFound(events[i].name.clone()));
            },
        }
        i = i + 1;
    }
    actions
}

/// What the engine driver must do, step by step and in order, for the music
/// requests of one tick.
#[derive(Debug, PartialEq)]
pub enum MusicAction {
    /// Despawn the entity holding the `NowPlaying` marker.
    StopCurrent,
    /// Spawn a looping playback entity for this handle and tag it with the
    /// `NowPlaying` marker.
    Start(SoundHandle),
    /// The name is not registered: report the recoverable condition; the
    /// previous track is already stopped, so silence follows.
    SoundNotFound(String),
}

/// Whether a music track is playing after a batch of `PlayMusic` requests:
/// the last request decides, and with no requests nothing changes.
pub open spec fn music_playing_after(
    sounds: Map<Seq<char>, SoundHandle>,
    events: Seq<PlayMusic>,
    playing: bool,
) -> bool {
    if events.len() == 0 {
        playing
    } else {
        sounds.contains_key(events.last().name@)
    }
}

/// The actions owed for one `PlayMusic` request: stop the current track
/// first if one is playing, then start the requested track, or report the
/// unresolved name and leave silence.
pub open spec fn music_step(
    sounds: Map<Seq<char>, SoundHandle>,
    request: PlayMusic,
    playing: bool,
) -> Seq<MusicAction> {
    let stop: Seq<MusicAction> = if playing {
        seq![MusicAction::StopCurrent]
    } else {
        Seq::empty()
    };
    if sounds.contains_key(request.name@) {
        stop.push(MusicAction::Start(sounds[request.name@]))
    } else {
        stop.push(MusicAction::SoundNotFound(request.name))
    }
}

/// The actions owed for a batch of `PlayMusic` requests, processed in
/// request order, each seeing the playing state the previous one left.
pub open spec fn music_plan(
    sounds: Map<Seq<char>, SoundHandle>,
    events: Seq<PlayMusic>,
    playing: bool,
) -> Seq<MusicAction>
    decreases events.len(),
{
    if events.len() == 0 {
        Seq::empty()
    } else {
        music_plan(sounds, events.drop_last(), playing) + music_step(
            sounds,
            events.last(),
            music_playing_after(sounds, events.drop_last(), playing),
        )
    }
}

/// Decides the driver's response to a batch of `PlayMusic` requests.
/// `playing` says whether an entity currently holds the `NowPlaying` marker.
/// Each request stops the current track before its own name is even looked
/// up, so an unresolved name still silences the previous track.
pub fn play_music(sounds: &SoundResource, events: &Vec<PlayMusic>, playing: bool) -> (actions: Vec<
    MusicAction,
>)
    ensures
        actions@ == music_plan(sounds@, events@, playing),
{
    let mut actions: Vec<MusicAction> = Vec::new();
    let mut now_playing: bool = playing;
    let mut i: usize = 0;
    let n: usize = events.len();
    while i < n
        invariant
            n == events@.len(),
            i <= n,
            actions@ == music_plan(sounds@, events@.take(i as int), playing),
            now_playing == music_playing_after(sounds@, events@.take(i as int), playing),
        decreases n - i,
    {
        proof {
            assert(events@.take(i + 1).drop_last() =~= events@.take(i as int));
            assert(events@.take(i + 1).last() == events@[i as int]);
        }
        if now_playing {
            actions.push(MusicAction::StopCurrent);
        }
        match sounds.get(events[i].name.as_str()) {
            Some(handle) => {
                actions.push(MusicAction::Start(handle));
                now_playing = true;
            },
            None => {
                actions.push(MusicAction::SoundNotFound(events[i].name.clone()));
                now_playing = false;
            },
        }
        i = i + 1;
    }
    proof {
        assert(events@.take(n as int) =~= events@);
    }
    actions
}

/// Decides the driver's response to a `StopMusic` request: despawn the
/// entity holding the `NowPlaying` marker exactly when one exists; with
/// nothing playing the request is a no-op and no error.
pub fn stop_music(playing: bool) -> (stop: bool)
    ensures
        stop == playing,
{
    playing
}

/// How many entities hold the `NowPlaying` marker after the driver applies
/// one action to a store holding `count` of them: `StopCurrent` despawns the
/// marked entity if one exists, `Start` spawns and marks a new one, and a
/// not-found report touches no entity.
pub open spec fn count_step(count: nat, action: MusicAction) -> nat {
    match action {
        MusicAction::StopCurrent => if count > 0 {
            (count - 1) as nat
        } else {
            0
        },
        MusicAction::Start(handle) => count + 1,
        MusicAction::SoundNotFound(name) => count,
    }
}

/// Marked-entity count after the driver applies a whole action sequence in
/// order, first action first.
pub open spec fn music_count_after(actions: Seq<MusicAction>, count: nat) -> nat
    decreases actions.len(),
{
    if actions.len() == 0 {
        count
    } else {
        count_step(music_count_after(actions.drop_last(), count), actions.last())
    }
}

proof fn lemma_count_push(actions: Seq<MusicAction>, action: MusicAction, count: nat)
    ensures
        music_count_after(actions.push(action), count) == count_step(
            music_count_after(actions, count),
            action,
        ),
{
    assert(actions.push(action).drop_last() =~= actions);
}

proof fn lemma_count_concat(a: Seq<MusicAction>, b: Seq<MusicAction>, count: nat)
    ensures
        music_count_after(a + b, count) == music_count_after(b, music_count_after(a, count)),
    decreases b.len(),
{
    if b.len() == 0 {
        assert(a + b =~= a);
    } else {
        assert((a + b).drop_last() =~= a + b.drop_last());
        lemma_count_concat(a, b.drop_last(), count);
    }
}

/// At most one entity represents the looping music track, ever: starting
/// from a store with at most one marked entity and `playing` telling the
/// truth about it, every prefix of the plan `play_music` returns leaves at
/// most one marked entity, and after the whole plan exactly one is marked
/// precisely when a track is playing.
pub proof fn lemma_music_marker_at_most_one(
    sounds: Map<Seq<char>, SoundHandle>,
    events: Seq<PlayMusic>,
    count: nat,
    playing: bool,
    k: int,
)
    requires
        count <= 1,
        playing == (count == 1),
        0 <= k <= music_plan(sounds, events, playing).len(),
    ensures
        music_count_after(music_plan(sounds, events, playing).take(k), count) <= 1,
        music_count_after(music_plan(sounds, events, playing), count) == if music_playing_after(
            sounds,
            events,
            playing,
        ) {
            1nat
        } else {
            0nat
        },
    decreases events.len(),
{
    let plan = music_plan(sounds, events, playing);
    if events.len() == 0 {
        assert(plan.take(k) =~= plan);
    } else {
        let front_events = events.drop_last();
        let front_plan = music_plan(sounds, front_events, playing);
        let front_playing = music_playing_after(sounds, front_events, playing);
        // the count the front of the plan leaves behind
        lemma_music_marker_at_most_one(sounds, front_events, count, playing, front_plan.len() as int);
        let front_count = music_count_after(front_plan, count);
        let step = music_step(sounds, events.last(), front_playing);
        let stop: Seq<MusicAction> = if front_playing {
            seq![MusicAction::StopCurrent]
        } else {
            Seq::empty()
        };
        // the count at every stage of the final step
        assert(music_count_after(stop, front_count) == 0) by {
            if front_playing {
                assert(stop =~= Seq::<MusicAction>::empty().push(MusicAction::StopCurrent));
                lemma_count_push(Seq::empty(), MusicAction::StopCurrent, front_count);
            }
        }
        if sounds.contains_key(events.last().name@) {
            lemma_count_push(stop, MusicAction::Start(sounds[events.last().name@]), front_count);
        } else {
            lemma_count_push(stop, MusicAction::SoundNotFound(events.last().name), front_count);
        }
        lemma_count_concat(front_plan, step, count);
        // every prefix stays at or under one marked entity
        if k <= front_plan.len() {
            assert(plan.take(k) =~= front_plan.take(k));
            lemma_music_marker_at_most_one(sounds, front_events, count, playing, k);
        } else {
            let within: int = k - front_plan.len();
            assert(plan.take(k) =~= front_plan + step.take(within));
            lemma_count_concat(front_plan, step.take(within), count);
            if within == step.len() {
                assert(step.take(within) =~= step);
            } else {
                assert(front_playing && within == 1);
                assert(step.take(1) =~= stop);
            }
        }
    }
}

} // verus!
