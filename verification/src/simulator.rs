//! The simulation driver: the state of a run and what it decides.
//!
//! The driver owns the world. It answers input events, fills the world at
//! the start and on the trigger key, tells the length of a frame and runs
//! the systems on its world. Polling for input, drawing and waiting are
//! the caller's, who walks the stages of a frame in their order.

use vstd::prelude::*;
use hecs::World;
use crate::components::physics::AccelerationComponent;
use crate::components::physics::CollisionComponent;
use crate::components::physics::CollisionType;
use crate::components::physics::DeltaTime;
use crate::components::physics::MassComponent;
use crate::components::physics::PositionComponent;
use crate::components::physics::SizeComponent;
use crate::components::physics::VelocityComponent;
use crate::components::physics::NANOS_PER_SECOND;
use crate::components::render::Color;
use crate::components::render::RenderComponent;
use crate::scalar::lemma_neg;
use crate::scalar::lemma_scaled_of_int;
use crate::scalar::lemma_truncate_of_int;
use crate::scalar::lemma_units;
use crate::scalar::Scalar;
use crate::systems::cleanup_system;
use crate::systems::collision_system;
use crate::systems::boxes_overlap;
use crate::systems::doomed;
use crate::systems::draw_command_of;
use crate::systems::is_contact_list;
use crate::systems::is_draw_list;
use crate::systems::is_mover_list;
use crate::systems::movers;
use crate::systems::render_system;
use crate::systems::set_motion;
use crate::systems::Contact;
use crate::systems::DrawCommand;
use crate::systems::Mover;
use crate::world::entities;
use crate::world::is_listing;
use crate::world::no_entities;
use crate::world::world_attach_collider;
use crate::world::world_contents;
use crate::world::world_new;
use crate::world::world_spawn;
use crate::world::Components;
use crate::world::WORLD_CAPACITY;

verus! {

/// A key of the keyboard, as far as the driver tells keys apart.
#[derive(Debug, Clone, Copy, PartialEq, Eq, Structural)]
pub enum Key {
    Escape,
    Space,
    Other,
}

/// An input event, as far as the driver tells events apart.
#[derive(Debug, Clone, Copy, PartialEq, Eq, Structural)]
pub enum InputEvent {
    Quit,
    KeyDown(Key),
    Other,
}

/// What the driver did on an input event.
#[derive(Debug, Clone, Copy, PartialEq, Eq, Structural)]
pub enum Reaction {
    /// The run ends.
    Quit,
    /// The trigger key put two entities into the world.
    Spawned { first: u64, second: u64 },
    /// The trigger key found no room for two more entities.
    Rejected,
    /// The event means nothing to the driver.
    Ignored,
}

/// The stages of a frame, in the order in which they run.
#[derive(Debug, Clone, Copy, PartialEq, Eq, Structural)]
pub enum Stage {
    Input,
    Integrate,
    Collide,
    Cleanup,
    Render,
    Present,
}

impl Stage {
    /// The place of the stage in a frame, from zero.
    pub open spec fn rank(self) -> nat {
        match self {
            Stage::Input => 0,
            Stage::Integrate => 1,
            Stage::Collide => 2,
            Stage::Cleanup => 3,
            Stage::Render => 4,
            Stage::Present => 5,
        }
    }

    /// The stage that follows; after the last stage of a frame, the first
    /// of the next.
    pub open spec fn spec_next(self) -> Stage {
        match self {
            Stage::Input => Stage::Integrate,
            Stage::Integrate => Stage::Collide,
            Stage::Collide => Stage::Cleanup,
            Stage::Cleanup => Stage::Render,
            Stage::Render => Stage::Present,
            Stage::Present => Stage::Input,
        }
    }

    /// The stage that a frame begins with.
    pub fn first() -> (stage: Stage)
        ensures
            stage == Stage::Input,
    {
        Stage::Input
    }

    #[verifier::when_used_as_spec(spec_next)]
    pub fn next(self) -> (stage: Stage)
        ensures
            stage == self.spec_next(),
    {
        match self {
            Stage::Input => Stage::Integrate,
            Stage::Integrate => Stage::Collide,
            Stage::Collide => Stage::Cleanup,
            Stage::Cleanup => Stage::Render,
            Stage::Render => Stage::Present,
            Stage::Present => Stage::Input,
        }
    }
}

/// Within a frame every stage has its place: the motion step comes before
/// the collisions, those before cleanup, cleanup before rendering, and a
/// stage is followed by the one of the next place.
pub proof fn lemma_stage_order(stage: Stage)
    ensures
        stage.spec_next().rank() == (stage.rank() + 1) % 6,
        Stage::Input.rank() < Stage::Integrate.rank() < Stage::Collide.rank()
            < Stage::Cleanup.rank() < Stage::Render.rank() < Stage::Present.rank(),
{
}

/// The x of the entities of the start and of the left entity of a pair.
pub const LEFT_X: i32 = 200;

/// The x of the right entity of a pair.
pub const RIGHT_X: i32 = 400;

/// The speed at which the entities of a pair approach each other.
pub const STRIKE_SPEED: i32 = 200;

/// The downward pull on the first entity of the start.
pub const LIGHT_PULL: i32 = 200;

/// The downward pull on the second entity of the start and on a pair.
pub const HEAVY_PULL: i32 = 500;

/// The width and the height of the box of an entity of a pair.
pub const STRIKER_EXTENT: u32 = 50;

pub open spec fn white() -> Color {
    Color { r: 255, g: 255, b: 255 }
}

pub open spec fn teal() -> Color {
    Color { r: 20, g: 100, b: 120 }
}

/// The attributes of an entity of the start: at rest at (200, 0), pulled
/// down by `pull`, of mass one, drawn in `color`, without a box.
pub open spec fn is_faller(held: Components, pull: int, color: Color) -> bool {
    &&& held.position.is_some()
    &&& held.position.unwrap().value.is_at(LEFT_X as int, 0)
    &&& held.velocity.is_some()
    &&& held.velocity.unwrap().value.is_at(0, 0)
    &&& held.acceleration.is_some()
    &&& held.acceleration.unwrap().value.is_at(0, pull)
    &&& held.mass.is_some()
    &&& held.mass.unwrap().value.is_int(1)
    &&& held.render == Some(RenderComponent { color })
    &&& held.size.is_none()
    &&& held.collision.is_none()
}

/// The attributes of an entity of a pair: at `(x, 0)`, moving along x at
/// `speed`, pulled down by 500, of mass one, white, in an elastic box of 50
/// by 50.
pub open spec fn is_striker(held: Components, x: int, speed: int) -> bool {
    &&& held.position.is_some()
    &&& held.position.unwrap().value.is_at(x, 0)
    &&& held.velocity.is_some()
    &&& held.velocity.unwrap().value.is_at(speed, 0)
    &&& held.acceleration.is_some()
    &&& held.acceleration.unwrap().value.is_at(0, HEAVY_PULL as int)
    &&& held.mass.is_some()
    &&& held.mass.unwrap().value.is_int(1)
    &&& held.render == Some(RenderComponent { color: white() })
    &&& held.size == Some(SizeComponent { width: STRIKER_EXTENT, height: STRIKER_EXTENT })
    &&& held.collision == Some(CollisionComponent { col_type: CollisionType::Elastic })
}

/// `after` is `before` with the two entities `first` and `second` put in.
pub open spec fn adds_two(
    before: Map<u64, Components>,
    after: Map<u64, Components>,
    first: u64,
    second: u64,
) -> bool {
    &&& first != second
    &&& !before.contains_key(first)
    &&& !before.contains_key(second)
    &&& after.dom() == before.dom().insert(first).insert(second)
    &&& forall|id: u64| before.contains_key(id) ==> after[id] == before[id]
}

/// Whether two more entities fit into a world that holds `contents`.
pub open spec fn has_room_for_two(contents: Map<u64, Components>) -> bool {
    contents.dom().len() + 2 <= WORLD_CAPACITY
}

/// What the start of a run does to the world: with room for two, it adds
/// the two entities of the start; without, nothing.
pub open spec fn starts(
    before: Map<u64, Components>,
    after: Map<u64, Components>,
    spawned: Option<(u64, u64)>,
) -> bool {
    match spawned {
        Some((first, second)) => {
            &&& has_room_for_two(before)
            &&& adds_two(before, after, first, second)
            &&& is_faller(after[first], LIGHT_PULL as int, white())
            &&& is_faller(after[second], HEAVY_PULL as int, teal())
        },
        None => !has_room_for_two(before) && after == before,
    }
}

/// What an input event does to the world and what the driver answers.
/// Quit and the escape key end the run. The trigger key adds a pair of
/// entities that approach each other at the same speed, where there is
/// room for them. Nothing else changes the world.
pub open spec fn reacts(
    before: Map<u64, Components>,
    after: Map<u64, Components>,
    event: InputEvent,
    reaction: Reaction,
) -> bool {
    match event {
        InputEvent::Quit | InputEvent::KeyDown(Key::Escape) => {
            reaction == Reaction::Quit && after == before
        },
        InputEvent::KeyDown(Key::Space) => match reaction {
            Reaction::Spawned { first, second } => {
                &&& has_room_for_two(before)
                &&& adds_two(before, after, first, second)
                &&& is_striker(after[first], LEFT_X as int, STRIKE_SPEED as int)
                &&& is_striker(after[second], RIGHT_X as int, -(STRIKE_SPEED as int))
                &&& after[second].velocity.unwrap().value.x
                    == after[first].velocity.unwrap().value.x.spec_neg()
            },
            Reaction::Rejected => !has_room_for_two(before) && after == before,
            _ => false,
        },
        _ => reaction == Reaction::Ignored && after == before,
    }
}

/// The state of a run: the world and the settings it was made with.
pub struct Simulator {
    fps: u32,
    world: World,
    width: u32,
    height: u32,
    population: u32,
}

impl Simulator {
    /// What the world of the run holds.
    pub closed spec fn contents(&self) -> Map<u64, Components> {
        world_contents(self.world)
    }

    pub closed spec fn spec_fps(&self) -> u32 {
        self.fps
    }

    pub closed spec fn spec_width(&self) -> u32 {
        self.width
    }

    pub closed spec fn spec_height(&self) -> u32 {
        self.height
    }

    pub closed spec fn spec_len(&self) -> u32 {
        self.population
    }

    /// The frame rate is above zero, and the driver knows how many
    /// entities its world holds.
    pub closed spec fn well_formed(&self) -> bool {
        &&& self.fps > 0
        &&& world_contents(self.world).dom().finite()
        &&& world_contents(self.world).dom().len() == self.population
    }

    /// The settings of `self` are those of `other`.
    pub open spec fn same_settings(&self, other: &Simulator) -> bool {
        &&& self.spec_fps() == other.spec_fps()
        &&& self.spec_width() == other.spec_width()
        &&& self.spec_height() == other.spec_height()
    }

    /// A run over an empty world, for a visible area of `width` by
    /// `height` and `fps` frames in a second.
    pub fn new(width: u32, height: u32, fps: u32) -> (sim: Simulator)
        requires
            fps > 0,
        ensures
            sim.well_formed(),
            sim.contents() == no_entities(),
            sim.spec_width() == width,
            sim.spec_height() == height,
            sim.spec_fps() == fps,
    {
        Simulator { fps, world: world_new(), width, height, population: 0 }
    }

    #[verifier::when_used_as_spec(spec_fps)]
    pub fn fps(&self) -> (fps: u32)
        ensures
            fps == self.spec_fps(),
    {
        self.fps
    }

    #[verifier::when_used_as_spec(spec_width)]
    pub fn width(&self) -> (width: u32)
        ensures
            width == self.spec_width(),
    {
        self.width
    }

    #[verifier::when_used_as_spec(spec_height)]
    pub fn height(&self) -> (height: u32)
        ensures
            height == self.spec_height(),
    {
        self.height
    }

    /// The number of entities in the world.
    #[verifier::when_used_as_spec(spec_len)]
    pub fn len(&self) -> (len: u32)
        ensures
            len == self.spec_len(),
            self.well_formed() ==> len == self.contents().dom().len(),
    {
        self.population
    }

    /// The simulated time of one frame: a second divided by the frame
    /// rate, in whole nanoseconds.
    pub fn frame_time(&self) -> (step: DeltaTime)
        requires
            self.well_formed(),
        ensures
            step.nanos() == NANOS_PER_SECOND as nat / self.spec_fps() as nat,
    {
        DeltaTime::from_fps(self.fps)
    }

    /// Puts an entity that moves and is drawn into the world.
    fn spawn_mover(
        &mut self,
        position: PositionComponent,
        velocity: VelocityComponent,
        acceleration: AccelerationComponent,
        mass: MassComponent,
        render: RenderComponent,
    ) -> (id: u64)
        requires
            old(self).well_formed(),
            old(self).contents().dom().len() < WORLD_CAPACITY,
        ensures
            final(self).well_formed(),
            final(self).same_settings(old(self)),
            !old(self).contents().contains_key(id),
            final(self).contents() == old(self).contents().insert(
                id,
                Components::mover(position, velocity, acceleration, mass, render),
            ),
            final(self).contents().dom().len() == old(self).contents().dom().len() + 1,
    {
        let id = world_spawn(&mut self.world, position, velocity, acceleration, mass, render);
        self.population = self.population + 1;
        id
    }

    /// Puts an entity of a pair into the world.
    fn spawn_striker(&mut self, x: i32, speed: Scalar) -> (id: u64)
        requires
            old(self).well_formed(),
            old(self).contents().dom().len() < WORLD_CAPACITY,
            x == LEFT_X || x == RIGHT_X,
            speed.is_int(STRIKE_SPEED as int) || speed.is_int(-(STRIKE_SPEED as int)),
        ensures
            final(self).well_formed(),
            final(self).same_settings(old(self)),
            !old(self).contents().contains_key(id),
            final(self).contents().dom() == old(self).contents().dom().insert(id),
            forall|other: u64|
                old(self).contents().contains_key(other) ==> final(self).contents()[other] == old(
                    self,
                ).contents()[other],
            final(self).contents().dom().len() == old(self).contents().dom().len() + 1,
            speed.is_int(STRIKE_SPEED as int) ==> is_striker(
                final(self).contents()[id],
                x as int,
                STRIKE_SPEED as int,
            ),
            speed.is_int(-(STRIKE_SPEED as int)) ==> is_striker(
                final(self).contents()[id],
                x as int,
                -(STRIKE_SPEED as int),
            ),
            final(self).contents()[id].velocity.unwrap().value.x == speed,
    {
        let id = self.spawn_mover(
            PositionComponent::new(Scalar::from_int(x), Scalar::zero()),
            VelocityComponent::new(speed, Scalar::zero()),
            AccelerationComponent::new(Scalar::zero(), Scalar::from_int(HEAVY_PULL)),
            MassComponent::new(Scalar::from_int(1)),
            RenderComponent::new(Color::RGB(255, 255, 255)),
        );
        let ghost spawned = self.contents();
        world_attach_collider(
            &mut self.world,
            id,
            SizeComponent::new(STRIKER_EXTENT, STRIKER_EXTENT),
            CollisionComponent::new(CollisionType::Elastic),
        );
        proof {
            assert(self.contents().dom() =~= spawned.dom());
        }
        id
    }

    /// Starts the run: puts the two entities of the start into the world,
    /// both at rest at (200, 0) and of mass one, the first white and
    /// pulled down by 200, the second teal and pulled down by 500. In a
    /// world without room for two more entities nothing happens.
    pub fn start(&mut self) -> (spawned: Option<(u64, u64)>)
        requires
            old(self).well_formed(),
        ensures
            final(self).well_formed(),
            final(self).same_settings(old(self)),
            starts(old(self).contents(), final(self).contents(), spawned),
    {
        if self.population > WORLD_CAPACITY - 2 {
            return None;
        }
        let first = self.spawn_mover(
            PositionComponent::new(Scalar::from_int(LEFT_X), Scalar::zero()),
            VelocityComponent::new(Scalar::zero(), Scalar::zero()),
            AccelerationComponent::new(Scalar::zero(), Scalar::from_int(LIGHT_PULL)),
            MassComponent::new(Scalar::from_int(1)),
            RenderComponent::new(Color::RGB(255, 255, 255)),
        );
        let second = self.spawn_mover(
            PositionComponent::new(Scalar::from_int(LEFT_X), Scalar::zero()),
            VelocityComponent::new(Scalar::zero(), Scalar::zero()),
            AccelerationComponent::new(Scalar::zero(), Scalar::from_int(HEAVY_PULL)),
            MassComponent::new(Scalar::from_int(1)),
            RenderComponent::new(Color::RGB(20, 100, 120)),
        );
        proof {
            assert(self.contents().dom() =~= old(self).contents().dom().insert(first).insert(
                second,
            ));
        }
        Some((first, second))
    }

    /// Answers one input event.
    pub fn handle_event(&mut self, event: InputEvent) -> (reaction: Reaction)
        requires
            old(self).well_formed(),
        ensures
            final(self).well_formed(),
            final(self).same_settings(old(self)),
            reacts(old(self).contents(), final(self).contents(), event, reaction),
    {
        match event {
            InputEvent::Quit | InputEvent::KeyDown(Key::Escape) => Reaction::Quit,
            InputEvent::KeyDown(Key::Space) => {
                if self.population > WORLD_CAPACITY - 2 {
                    return Reaction::Rejected;
                }
                let speed = Scalar::from_int(STRIKE_SPEED);
                proof {
                    lemma_neg(speed, STRIKE_SPEED as int);
                }
                let first = self.spawn_striker(LEFT_X, speed);
                let second = self.spawn_striker(RIGHT_X, speed.neg());
                proof {
                    assert(self.contents().dom() =~= old(self).contents().dom().insert(
                        first,
                    ).insert(second));
                }
                Reaction::Spawned { first, second }
            },
            _ => Reaction::Ignored,
        }
    }

    /// Lists the entities that hold an attribute, each with its attributes.
    pub fn entities(&mut self) -> (rows: Vec<(u64, Components)>)
        requires
            old(self).well_formed(),
        ensures
            final(self).well_formed(),
            final(self).same_settings(old(self)),
            final(self).contents() == old(self).contents(),
            is_listing(rows@, old(self).contents()),
    {
        entities(&mut self.world)
    }

    /// Lists the entities that the motion step advances.
    pub fn movers(&mut self) -> (list: Vec<Mover>)
        requires
            old(self).well_formed(),
        ensures
            final(self).well_formed(),
            final(self).same_settings(old(self)),
            final(self).contents() == old(self).contents(),
            is_mover_list(old(self).contents(), list@),
    {
        movers(&mut self.world)
    }

    /// Gives the entity `id` another position and velocity, where it has
    /// both, and says whether it did.
    pub fn set_motion(
        &mut self,
        id: u64,
        position: PositionComponent,
        velocity: VelocityComponent,
    ) -> (found: bool)
        requires
            old(self).well_formed(),
        ensures
            final(self).well_formed(),
            final(self).same_settings(old(self)),
            found == (old(self).contents().contains_key(id) && old(
                self,
            ).contents()[id].position.is_some() && old(self).contents()[id].velocity.is_some()),
            found ==> final(self).contents() == old(self).contents().insert(
                id,
                old(self).contents()[id].with_motion(position, velocity),
            ),
            !found ==> final(self).contents() == old(self).contents(),
    {
        let found = set_motion(&mut self.world, id, position, velocity);
        proof {
            if found {
                assert(self.contents().dom() =~= old(self).contents().dom());
            }
        }
        found
    }

    /// Finds the pairs of entities whose boxes meet.
    pub fn collide(&mut self) -> (contacts: Vec<Contact>)
        requires
            old(self).well_formed(),
        ensures
            final(self).well_formed(),
            final(self).same_settings(old(self)),
            final(self).contents() == old(self).contents(),
            is_contact_list(old(self).contents(), contacts@),
    {
        collision_system(&mut self.world, self.width, self.height)
    }

    /// Removes the entities that drifted ten heights of the visible area
    /// or more from the x axis, and returns their handles.
    pub fn cleanup(&mut self) -> (removed: Vec<u64>)
        requires
            old(self).well_formed(),
        ensures
            final(self).well_formed(),
            final(self).same_settings(old(self)),
            final(self).contents() == old(self).contents().remove_keys(
                doomed(old(self).contents(), old(self).spec_height()),
            ),
            removed@.no_duplicates(),
            removed@.to_set() == doomed(old(self).contents(), old(self).spec_height()),
    {
        let removed = cleanup_system(&mut self.world, self.width, self.height);
        self.population = self.population - (removed.len() as u32);
        removed
    }

    /// Lists what to draw.
    pub fn render(&mut self) -> (commands: Vec<DrawCommand>)
        requires
            old(self).well_formed(),
        ensures
            final(self).well_formed(),
            final(self).same_settings(old(self)),
            final(self).contents() == old(self).contents(),
            exists|ids: Seq<u64>| is_draw_list(old(self).contents(), ids, commands@),
    {
        render_system(&mut self.world)
    }
}

/// The two entities of a pair start apart, 150 from edge to edge, and are
/// drawn around their centres.
pub proof fn lemma_pair_starts_apart(left: Components, right: Components)
    requires
        is_striker(left, LEFT_X as int, STRIKE_SPEED as int),
        is_striker(right, RIGHT_X as int, -(STRIKE_SPEED as int)),
    ensures
        !boxes_overlap(
            left.position.unwrap(),
            left.size.unwrap(),
            right.position.unwrap(),
            right.size.unwrap(),
        ),
        draw_command_of(left).center_x == LEFT_X,
        draw_command_of(right).center_x == RIGHT_X,
        draw_command_of(left).center_y == 0,
        draw_command_of(right).center_y == 0,
{
    let at = left.position.unwrap().value;
    let to = right.position.unwrap().value;
    lemma_units();
    vstd::arithmetic::power2::lemma_pow2_unfold(150);
    lemma_scaled_of_int(at.x, LEFT_X as int);
    lemma_scaled_of_int(to.x, RIGHT_X as int);
    lemma_truncate_of_int(at.x, LEFT_X as int);
    lemma_truncate_of_int(at.y, 0);
    lemma_truncate_of_int(to.x, RIGHT_X as int);
    lemma_truncate_of_int(to.y, 0);
}

} // verus!
