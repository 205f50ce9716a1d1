//! The sprite animation core: per-entity animation state machines, the
//! name-keyed registry of animation definitions, and the per-tick driver
//! decision step that the engine glue applies to its entity store.
//!
//! Time is counted in integral ticks of the engine's fixed clock (for
//! instance microseconds); the per-frame duration and the elapsed
//! accumulator are plain integers of that unit.

use vstd::prelude::*;

use crate::table::lemma_table_absent;
use crate::table::lemma_table_found;
use crate::table::lemma_table_push;
use crate::table::table_map_of;

verus! {

/// How an animation behaves when its frame sequence runs out.
///
/// * `Once`: plays once and freezes on the last frame; the driver then
///   removes the animation from the entity, which persists.
/// * `Repeat`: loops indefinitely and never completes.
/// * `Despawn`: plays once; the driver then destroys the entity.
#[derive(Clone, Copy, Debug, PartialEq, Eq, Structural)]
pub enum AnimationType {
    Once,
    Repeat,
    Despawn,
}

/// Identifier standing for a sprite-sheet atlas owned by the engine; the
/// animation core never looks inside it, it only carries it along.
#[derive(Clone, Copy, Debug, PartialEq, Eq, Structural)]
pub struct AtlasHandle {
    pub id: u64,
}

/// The mathematical state of one animation instance.
pub ghost struct AnimationView {
    /// Current position in the frame sequence, `0`-based.
    pub index: int,
    /// The atlas the frames index into.
    pub atlas: AtlasHandle,
    /// The ordered sprite-atlas indices the animation steps through.
    pub frames: Seq<usize>,
    /// Time accumulated since the last frame boundary.
    pub elapsed: int,
    /// Time one frame stays on screen; always positive.
    pub frame_time: int,
    pub animation_type: AnimationType,
    /// Set once a non-repeating animation has shown its last frame out.
    pub finished: bool,
}

impl AnimationView {
    /// Internal invariant of every animation instance: the frame index stays
    /// inside the (non-empty) frame sequence, the accumulator never exceeds
    /// the per-frame duration, and the completion flag is reserved for
    /// non-repeating animations resting on their last frame.
    pub open spec fn wf(self) -> bool {
        &&& self.frames.len() > 0
        &&& 0 <= self.index < self.frames.len()
        &&& 0 < self.frame_time
        &&& 0 <= self.elapsed <= self.frame_time
        &&& self.finished ==> {
            &&& self.animation_type != AnimationType::Repeat
            &&& self.index == self.frames.len() - 1
            &&& self.elapsed == self.frame_time
        }
    }

    /// The sprite-atlas index currently on display.
    pub open spec fn current_frame(self) -> usize {
        self.frames[self.index]
    }

    /// State after one frame boundary is crossed.
    pub open spec fn advanced(self) -> AnimationView {
        if self.animation_type == AnimationType::Repeat {
            AnimationView { index: (self.index + 1) % (self.frames.len() as int), elapsed: 0, ..self }
        } else if self.index < self.frames.len() - 1 {
            AnimationView { index: self.index + 1, elapsed: 0, ..self }
        } else {
            AnimationView { elapsed: self.frame_time, finished: true, ..self }
        }
    }

    /// State after one call of `tick` with `delta` elapsed time: at most one
    /// frame boundary is crossed per call, and any time past the boundary is
    /// discarded, not carried over.
    pub open spec fn ticked(self, delta: u64) -> AnimationView {
        if delta >= self.frame_time - self.elapsed {
            self.advanced()
        } else {
            AnimationView { elapsed: self.elapsed + delta, ..self }
        }
    }

    /// State after a whole sequence of `tick` calls, first delta first.
    pub open spec fn ticked_all(self, deltas: Seq<u64>) -> AnimationView
        decreases deltas.len(),
    {
        if deltas.len() == 0 {
            self
        } else {
            self.ticked(deltas[0]).ticked_all(deltas.drop_first())
        }
    }
}

/// One tick of the clock preserves the instance invariant.
pub proof fn lemma_tick_preserves_wf(v: AnimationView, delta: u64)
    requires
        v.wf(),
    ensures
        v.ticked(delta).wf(),
{
    if delta >= v.frame_time - v.elapsed && v.animation_type == AnimationType::Repeat {
        vstd::arithmetic::div_mod::lemma_mod_bound(v.index + 1, v.frames.len() as int);
    }
}

/// However the clock advances, the frame index never leaves the frame
/// sequence: after any sequence of ticks the instance invariant, and with it
/// `0 <= index < frames.len()`, still holds.
pub proof fn lemma_ticks_stay_in_bounds(v: AnimationView, deltas: Seq<u64>)
    requires
        v.wf(),
    ensures
        v.ticked_all(deltas).wf(),
    decreases deltas.len(),
{
    if deltas.len() > 0 {
        lemma_tick_preserves_wf(v, deltas[0]);
        lemma_ticks_stay_in_bounds(v.ticked(deltas[0]), deltas.drop_first());
    }
}

/// A repeating animation never completes, however many ticks elapse.
pub proof fn lemma_repeat_never_completes(v: AnimationView, deltas: Seq<u64>)
    requires
        v.wf(),
        v.animation_type == AnimationType::Repeat,
    ensures
        !v.ticked_all(deltas).finished,
    decreases deltas.len(),
{
    if deltas.len() > 0 {
        lemma_tick_preserves_wf(v, deltas[0]);
        lemma_repeat_never_completes(v.ticked(deltas[0]), deltas.drop_first());
    }
}

/// A completed animation is a fixed point: further ticks change nothing.
pub proof fn lemma_completed_is_stable(v: AnimationView, deltas: Seq<u64>)
    requires
        v.wf(),
        v.finished,
    ensures
        v.ticked_all(deltas) == v,
    decreases deltas.len(),
{
    if deltas.len() > 0 {
        assert(v.ticked(deltas[0]) == v);
        lemma_completed_is_stable(v, deltas.drop_first());
    }
}

/// Progress of a non-repeating animation under boundary-crossing ticks: from
/// a fresh frame boundary, `k` ticks of at least one frame time each move the
/// index forward `k` places until the last frame, and the animation completes
/// exactly when the ticks outnumber the frames left.
pub proof fn lemma_once_advances(v: AnimationView, deltas: Seq<u64>)
    requires
        v.wf(),
        v.animation_type != AnimationType::Repeat,
        !v.finished,
        v.elapsed == 0,
        forall|i: int| 0 <= i < deltas.len() ==> deltas[i] >= v.frame_time,
    ensures
        v.ticked_all(deltas).frames == v.frames,
        v.ticked_all(deltas).index == if v.index + deltas.len() < v.frames.len() {
            v.index + deltas.len()
        } else {
            v.frames.len() - 1
        },
        v.ticked_all(deltas).finished == (v.index + deltas.len() >= v.frames.len()),
    decreases deltas.len(),
{
    if deltas.len() > 0 {
        let v1 = v.ticked(deltas[0]);
        lemma_tick_preserves_wf(v, deltas[0]);
        if v.index < v.frames.len() - 1 {
            lemma_once_advances(v1, deltas.drop_first());
        } else {
            lemma_completed_is_stable(v1, deltas.drop_first());
        }
    }
}

/// A non-repeating animation played from the start with ticks of at least one
/// frame time each: once the ticks reach the frame count it is completed and
/// shows the last frame, and it stays that way under any further ticks.
pub proof fn lemma_once_completes_on_last_frame(v: AnimationView, deltas: Seq<u64>, more: Seq<u64>)
    requires
        v.wf(),
        v.animation_type != AnimationType::Repeat,
        !v.finished,
        v.index == 0,
        v.elapsed == 0,
        forall|i: int| 0 <= i < deltas.len() ==> deltas[i] >= v.frame_time,
        deltas.len() >= v.frames.len(),
    ensures
        v.ticked_all(deltas).finished,
        v.ticked_all(deltas).current_frame() == v.frames.last(),
        v.ticked_all(deltas).ticked_all(more) == v.ticked_all(deltas),
{
    lemma_once_advances(v, deltas);
    lemma_ticks_stay_in_bounds(v, deltas);
    lemma_completed_is_stable(v.ticked_all(deltas), more);
}

/// Rejected by `Animation::new`: the definition had an empty frame sequence
/// or a per-frame duration of no time at all.
#[derive(Clone, Copy, Debug, PartialEq, Eq, Structural)]
pub enum AnimationError {
    InvalidAnimation,
}

/// One animation instance: a cloned definition plus the advancing state the
/// engine ticks every frame. Owned exclusively by one entity.
pub struct Animation {
    index: usize,
    atlas: AtlasHandle,
    frames: Vec<usize>,
    elapsed: u64,
    frame_time: u64,
    animation_type: AnimationType,
    finished: bool,
}

impl View for Animation {
    type V = AnimationView;

    closed spec fn view(&self) -> AnimationView {
        AnimationView {
            index: self.index as int,
            atlas: self.atlas,
            frames: self.frames@,
            elapsed: self.elapsed as int,
            frame_time: self.frame_time as int,
            animation_type: self.animation_type,
            finished: self.finished,
        }
    }
}

impl Animation {
    /// Builds a fresh instance on the first frame with an empty accumulator.
    /// A definition with no frames, or with a frame time of no duration,
    /// is invalid and is rejected.
    pub fn new(
        atlas: AtlasHandle,
        frames: Vec<usize>,
        frame_time: u64,
        animation_type: AnimationType,
    ) -> (result: Result<Animation, AnimationError>)
        ensures
            result is Ok <==> frames@.len() > 0 && frame_time > 0,
            result matches Ok(a) ==> a@ == (AnimationView {
                index: 0,
                atlas,
                frames: frames@,
                elapsed: 0,
                frame_time: frame_time as int,
                animation_type,
                finished: false,
            }),
            result matches Ok(a) ==> a@.wf(),
            result matches Err(e) ==> e == AnimationError::InvalidAnimation,
    {
        if frames.len() == 0 || frame_time == 0 {
            return Err(AnimationError::InvalidAnimation);
        }
        Ok(Animation {
            index: 0,
            atlas,
            frames,
            elapsed: 0,
            frame_time,
            animation_type,
            finished: false,
        })
    }

    /// Steps past a frame boundary: a repeating animation wraps around, a
    /// non-repeating one moves on until its last frame, where it completes.
    fn advance_frame(&mut self)
        requires
            old(self)@.wf(),
        ensures
            final(self)@ == old(self)@.advanced(),
    {
        if self.animation_type == AnimationType::Repeat {
            let len: usize = self.frames.len();
            self.index = (self.index + 1) % len;
            self.elapsed = 0;
            return;
        }

        // non-repeating animation
        if self.index < self.frames.len() - 1 {
            self.index = self.index + 1;
            self.elapsed = 0;
        } else {
            self.finished = true;
            self.elapsed = self.frame_time;
        }
    }

    /// Advances the accumulator by `delta` and returns the sprite-atlas index
    /// of the current frame. At most one frame boundary is crossed per call,
    /// and time past the boundary is discarded.
    pub fn tick(&mut self, delta: u64) -> (frame: usize)
        requires
            old(self)@.wf(),
        ensures
            final(self)@ == old(self)@.ticked(delta),
            final(self)@.wf(),
            frame == final(self)@.current_frame(),
    {
        proof {
            lemma_tick_preserves_wf(old(self)@, delta);
        }
        let remaining: u64 = self.frame_time - self.elapsed;
        if delta >= remaining {
            self.advance_frame();
        } else {
            self.elapsed = self.elapsed + delta;
        }
        self.frames[self.index]
    }

    pub fn get_type(&self) -> (t: AnimationType)
        ensures
            t == self@.animation_type,
    {
        self.animation_type
    }

    pub fn finished(&self) -> (f: bool)
        ensures
            f == self@.finished,
    {
        self.finished
    }
}

impl Clone for Animation {
    /// The copy has the same state as the original.
    fn clone(&self) -> (other: Self)
        ensures
            other@ == self@,
    {
        let mut frames: Vec<usize> = Vec::new();
        let mut i: usize = 0;
        while i < self.frames.len()
            invariant
                i <= self.frames.len(),
                frames@ =~= self.frames@.take(i as int),
            decreases self.frames.len() - i,
        {
            frames.push(self.frames[i]);
            i = i + 1;
        }
        proof {
            assert(frames@ =~= self.frames@);
        }
        Animation {
            index: self.index,
            atlas: self.atlas,
            frames,
            elapsed: self.elapsed,
            frame_time: self.frame_time,
            animation_type: self.animation_type,
            finished: self.finished,
        }
    }
}

/// The name-keyed registry of animation definitions, populated by setup code
/// at startup and read when entities are spawned. Registering a name twice
/// keeps the latest definition.
pub struct AnimationResource {
    entries: Vec<(String, Animation)>,
}

impl View for AnimationResource {
    type V = Map<Seq<char>, Animation>;

    closed spec fn view(&self) -> Map<Seq<char>, Animation> {
        table_map_of(self.entries@)
    }
}

impl AnimationResource {
    pub fn new() -> (table: Self)
        ensures
            table@ == Map::<Seq<char>, Animation>::empty(),
    {
        AnimationResource { entries: Vec::new() }
    }

    /// Registers `animation` under `name`, overwriting any earlier
    /// registration of that name.
    pub fn insert(&mut self, name: String, animation: Animation)
        ensures
            final(self)@ == old(self)@.insert(name@, animation),
    {
        proof {
            lemma_table_push(self.entries@, name, animation);
        }
        self.entries.push((name, animation));
    }

    /// Returns a copy of the definition registered under `name`, or nothing
    /// if the name is unregistered. Non-mutating.
    pub fn get(&self, name: &str) -> (result: Option<Animation>)
        ensures
            result is Some <==> self@.contains_key(name@),
            result matches Some(a) ==> a@ == self@[name@]@,
    {
        let key: String = name.to_owned();
        let mut i: usize = self.entries.len();
        while i > 0
            invariant
                i <= self.entries@.len(),
                key@ == name@,
                forall|j: int| i <= j < self.entries@.len()
                    ==> (#[trigger] self.entries@[j].0)@ != name@,
            decreases i,
        {
            i = i - 1;
            if self.entries[i].0 == key {
                proof {
                    lemma_table_found(self.entries@, i as int, name@);
                }
                return Some(self.entries[i].1.clone());
            }
        }
        proof {
            lemma_table_absent(self.entries@, name@);
        }
        None
    }
}

/// One animated entity as the per-tick pass sees it: the engine's entity
/// identifier, the sprite-atlas index the entity currently displays, and the
/// animation state attached to it.
pub struct AnimEntry {
    pub entity: u64,
    pub sprite_index: usize,
    pub animation: Animation,
}

/// The mathematical state of one animated entity.
pub ghost struct AnimEntryView {
    pub entity: u64,
    pub sprite_index: usize,
    pub animation: AnimationView,
}

impl View for AnimEntry {
    type V = AnimEntryView;

    open spec fn view(&self) -> AnimEntryView {
        AnimEntryView {
            entity: self.entity,
            sprite_index: self.sprite_index,
            animation: self.animation@,
        }
    }
}

/// What the engine driver must do to an entity whose animation completed.
#[derive(Clone, Copy, Debug, PartialEq, Eq, Structural)]
pub enum EntityAction {
    /// Detach the animation; the entity persists, frozen on its last frame.
    RemoveAnimation { entity: u64 },
    /// Destroy the entity entirely.
    Despawn { entity: u64 },
}

/// The entity an action applies to.
pub open spec fn action_entity(action: EntityAction) -> u64 {
    match action {
        EntityAction::RemoveAnimation { entity } => entity,
        EntityAction::Despawn { entity } => entity,
    }
}

/// The views of a run of animated entities.
pub open spec fn views_of(entries: Seq<AnimEntry>) -> Seq<AnimEntryView> {
    entries.map_values(|e: AnimEntry| e@)
}

/// One entity after one tick: its animation advanced and its displayed
/// sprite-atlas index brought up to the animation's current frame.
pub open spec fn entry_ticked(e: AnimEntryView, delta: u64) -> AnimEntryView {
    let a = e.animation.ticked(delta);
    AnimEntryView { sprite_index: a.current_frame(), animation: a, ..e }
}

/// What the driver must do to an entity after this tick: nothing while its
/// animation runs; on completion, remove the animation (kind `Once`) or
/// destroy the entity (kind `Despawn`).
pub open spec fn entry_completion(e: AnimEntryView, delta: u64) -> Option<EntityAction> {
    let a = e.animation.ticked(delta);
    if a.finished {
        if a.animation_type == AnimationType::Once {
            Some(EntityAction::RemoveAnimation { entity: e.entity })
        } else if a.animation_type == AnimationType::Despawn {
            Some(EntityAction::Despawn { entity: e.entity })
        } else {
            None
        }
    } else {
        None
    }
}

/// The entities still animated after one tick, in their original order, each
/// with its animation advanced: exactly those whose animation has not
/// completed.
pub open spec fn ticked_survivors(s: Seq<AnimEntryView>, delta: u64) -> Seq<AnimEntryView>
    decreases s.len(),
{
    if s.len() == 0 {
        Seq::empty()
    } else {
        let front = ticked_survivors(s.drop_last(), delta);
        if entry_completion(s.last(), delta) is None {
            front.push(entry_ticked(s.last(), delta))
        } else {
            front
        }
    }
}

/// The actions this tick obliges the driver to perform, in entity order.
pub open spec fn completion_actions(s: Seq<AnimEntryView>, delta: u64) -> Seq<EntityAction>
    decreases s.len(),
{
    if s.len() == 0 {
        Seq::empty()
    } else {
        let front = completion_actions(s.drop_last(), delta);
        match entry_completion(s.last(), delta) {
            Some(action) => front.push(action),
            None => front,
        }
    }
}

/// Ticks every animated entity once, writes the returned frame back to the
/// entity's displayed sprite index where it differs, and removes from the
/// animated set every entity whose animation completed, returning the actions
/// the driver must now apply to the engine's entity store.
pub fn update_animations(entries: &mut Vec<AnimEntry>, delta: u64) -> (actions: Vec<EntityAction>)
    requires
        forall|i: int| 0 <= i < old(entries)@.len()
            ==> (#[trigger] old(entries)@[i]).animation@.wf(),
    ensures
        views_of(final(entries)@) == ticked_survivors(views_of(old(entries)@), delta),
        actions@ == completion_actions(views_of(old(entries)@), delta),
        forall|i: int| 0 <= i < final(entries)@.len()
            ==> (#[trigger] final(entries)@[i]).animation@.wf(),
{
    let ghost orig: Seq<AnimEntryView> = views_of(old(entries)@);
    let mut kept: Vec<AnimEntry> = Vec::new();
    let mut actions: Vec<EntityAction> = Vec::new();
    let mut i: usize = 0;
    let n: usize = entries.len();
    while i < n
        invariant
            n == entries@.len(),
            i <= n,
            orig == views_of(entries@),
            forall|j: int| 0 <= j < entries@.len()
                ==> (#[trigger] entries@[j]).animation@.wf(),
            views_of(kept@) == ticked_survivors(orig.take(i as int), delta),
            actions@ == completion_actions(orig.take(i as int), delta),
            forall|j: int| 0 <= j < kept@.len()
                ==> (#[trigger] kept@[j]).animation@.wf(),
        decreases n - i,
    {
        proof {
            assert(orig.take(i + 1).drop_last() =~= orig.take(i as int));
            assert(orig.take(i + 1).last() == orig[i as int]);
        }
        let entry = &entries[i];
        let mut animation = entry.animation.clone();
        let entity: u64 = entry.entity;
        let sprite_index: usize = entry.sprite_index;
        let frame = animation.tick(delta);
        let new_sprite_index: usize = if frame != sprite_index {
            frame
        } else {
            sprite_index
        };
        if animation.finished() {
            match animation.get_type() {
                AnimationType::Once => {
                    actions.push(EntityAction::RemoveAnimation { entity });
                },
                AnimationType::Despawn => {
                    actions.push(EntityAction::Despawn { entity });
                },
                AnimationType::Repeat => {},
            }
        } else {
            let ticked = AnimEntry { entity, sprite_index: new_sprite_index, animation };
            proof {
                assert(ticked@ == entry_ticked(orig[i as int], delta));
                assert(views_of(kept@.push(ticked)) =~= views_of(kept@).push(ticked@));
            }
            kept.push(ticked);
        }
        i = i + 1;
    }
    proof {
        assert(orig.take(n as int) =~= orig);
    }
    *entries = kept;
    actions
}

/// Whether some entry is for entity `id`.
pub open spec fn has_entity(s: Seq<AnimEntryView>, id: u64) -> bool {
    exists|i: int| 0 <= i < s.len() && (#[trigger] s[i]).entity == id
}

/// Every issued action names an entity of the ticked set, one whose
/// animation completed on this tick.
proof fn lemma_action_has_source(s: Seq<AnimEntryView>, delta: u64, action: EntityAction)
    requires
        completion_actions(s, delta).contains(action),
    ensures
        exists|i: int| 0 <= i < s.len()
            && #[trigger] entry_completion(s[i], delta) == Some(action),
    decreases s.len(),
{
    if entry_completion(s.last(), delta) == Some(action) {
        assert(entry_completion(s[s.len() - 1], delta) == Some(action));
    } else {
        lemma_action_has_source(s.drop_last(), delta, action);
        let i = choose|i: int| 0 <= i < s.drop_last().len()
            && #[trigger] entry_completion(s.drop_last()[i], delta) == Some(action);
        assert(entry_completion(s[i], delta) == Some(action));
    }
}

/// Every survivor of a tick is an entry whose animation did not complete.
proof fn lemma_survivor_has_source(s: Seq<AnimEntryView>, delta: u64, id: u64)
    requires
        has_entity(ticked_survivors(s, delta), id),
    ensures
        exists|i: int| 0 <= i < s.len() && (#[trigger] s[i]).entity == id
            && entry_completion(s[i], delta) is None,
    decreases s.len(),
{
    let survivors = ticked_survivors(s, delta);
    if entry_completion(s.last(), delta) is None && survivors.last().entity == id {
        assert((s[s.len() - 1]).entity == id);
    } else {
        let front = ticked_survivors(s.drop_last(), delta);
        assert(has_entity(front, id)) by {
            let k = choose|k: int| 0 <= k < survivors.len()
                && (#[trigger] survivors[k]).entity == id;
            assert(front[k].entity == id);
        }
        lemma_survivor_has_source(s.drop_last(), delta, id);
        let i = choose|i: int| 0 <= i < s.drop_last().len()
            && (#[trigger] s.drop_last()[i]).entity == id
            && entry_completion(s.drop_last()[i], delta) is None;
        assert(s[i].entity == id && entry_completion(s[i], delta) is None);
    }
}

/// The driver is told to act on an entity at most once: when a tick issues an
/// action for an entity — destroy it, or detach its finished animation — that
/// entity leaves the animated set, so no later tick over the surviving set
/// issues any action for it again. Holds whenever entity identifiers are
/// unique, as the engine's entity store guarantees.
pub proof fn lemma_completion_acts_at_most_once(
    s: Seq<AnimEntryView>,
    d1: u64,
    d2: u64,
    first: EntityAction,
    later: EntityAction,
)
    requires
        forall|i: int, j: int| 0 <= i < j < s.len()
            ==> (#[trigger] s[i]).entity != (#[trigger] s[j]).entity,
        completion_actions(s, d1).contains(first),
        completion_actions(ticked_survivors(s, d1), d2).contains(later),
    ensures
        action_entity(first) != action_entity(later),
{
    lemma_action_has_source(s, d1, first);
    let i = choose|i: int| 0 <= i < s.len()
        && #[trigger] entry_completion(s[i], d1) == Some(first);

    lemma_action_has_source(ticked_survivors(s, d1), d2, later);
    let survivors = ticked_survivors(s, d1);
    let k = choose|k: int| 0 <= k < survivors.len()
        && #[trigger] entry_completion(survivors[k], d2) == Some(later);
    assert(has_entity(survivors, action_entity(later))) by {
        assert(survivors[k].entity == action_entity(later));
    }
    lemma_survivor_has_source(s, d1, action_entity(later));
    let j = choose|j: int| 0 <= j < s.len()
        && (#[trigger] s[j]).entity == action_entity(later)
        && entry_completion(s[j], d1) is None;
    assert(s[i].entity == action_entity(first));
    if i != j {
        assert(s[i].entity != s[j].entity);
    }
}

} // verus!
