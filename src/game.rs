//! The world: the arrows, the obstacles, the screen and the parameters, and
//! the commands that change them.
use crate::arrow::{all_neighbors_wf, all_obstacles_wf, Arrow, NeighborData, Obstacle};
use crate::fixed::{in_range, EPSILON, LIMIT, SCALE};
use crate::messages::{ArrowState, ClientMessage, Color, FlockingParameters, ObstacleState, ServerMessage};
use crate::vector::Vec2;
use vstd::prelude::*;

verus! {

/// Radius of an obstacle that a viewer creates: forty units.
pub const OBSTACLE_RADIUS: i64 = 40_000_000;

pub struct Game {
    pub arrows: Vec<Arrow>,
    pub obstacles: Vec<Obstacle>,
    pub screen_width: i64,
    pub screen_height: i64,
    pub parameters: FlockingParameters,
}

/// The content of a `Game`.
pub struct World {
    pub arrows: Seq<Arrow>,
    pub obstacles: Seq<Obstacle>,
    pub width: int,
    pub height: int,
    pub parameters: FlockingParameters,
}

impl View for Game {
    type V = World;

    open spec fn view(&self) -> World {
        World {
            arrows: self.arrows@,
            obstacles: self.obstacles@,
            width: self.screen_width as int,
            height: self.screen_height as int,
            parameters: self.parameters,
        }
    }
}

/// An arrow as it is created, heading along its velocity where that is
/// longer than `EPSILON`.
pub open spec fn seeded(position: Vec2, velocity: Vec2, acceleration: Vec2, size: i64, color: Color) -> Arrow {
    Arrow {
        position,
        velocity,
        acceleration,
        size,
        color,
        angle: if velocity.longer(EPSILON as int) {
            velocity
        } else {
            Vec2::zero()
        },
    }
}

/// The five arrows a world starts with: red, blue, green, yellow and
/// magenta, on the left edge.
pub open spec fn initial_arrows() -> Seq<Arrow> {
    seq![
        seeded(Vec2 { x: 0, y: 50_000_000 }, Vec2 { x: 20_000_000, y: 0 }, Vec2 { x: 100_000, y: 0 }, 40_000_000, Color { r: 1_000_000, g: 0, b: 0, a: 1_000_000 }),
        seeded(Vec2 { x: 0, y: 120_000_000 }, Vec2 { x: 30_000_000, y: 5_000_000 }, Vec2 { x: 0, y: 50_000 }, 50_000_000, Color { r: 0, g: 0, b: 1_000_000, a: 1_000_000 }),
        seeded(Vec2 { x: 0, y: 200_000_000 }, Vec2 { x: 15_000_000, y: -3_000_000i64 }, Vec2 { x: 150_000, y: 0 }, 35_000_000, Color { r: 0, g: 1_000_000, b: 0, a: 1_000_000 }),
        seeded(Vec2 { x: 0, y: 280_000_000 }, Vec2 { x: 25_000_000, y: 2_000_000 }, Vec2 { x: -50_000i64, y: 100_000 }, 45_000_000, Color { r: 1_000_000, g: 1_000_000, b: 0, a: 1_000_000 }),
        seeded(Vec2 { x: 0, y: 360_000_000 }, Vec2 { x: 18_000_000, y: -5_000_000i64 }, Vec2 { x: 200_000, y: -100_000i64 }, 55_000_000, Color { r: 1_000_000, g: 0, b: 1_000_000, a: 1_000_000 }),
    ]
}

/// What the arrows see of each other during one tick: all of them as they
/// were before any moved.
pub open spec fn neighbors_of(arrows: Seq<Arrow>) -> Seq<NeighborData> {
    arrows.map_values(|a: Arrow| a.as_neighbor())
}

pub open spec fn arrow_state(a: Arrow) -> ArrowState {
    ArrowState { position: a.position, angle: a.angle, size: a.size, color: a.color }
}

pub open spec fn obstacle_state(o: Obstacle) -> ObstacleState {
    ObstacleState { position: o.position, radius: o.radius }
}

/// Whether a command is within the ranges the world can hold.
pub open spec fn acceptable(m: ClientMessage) -> bool {
    match m {
        ClientMessage::CreateObstacle { x, y } => in_range(x as int) && in_range(y as int),
        ClientMessage::UpdateParameters { parameters } => parameters.wf(),
        ClientMessage::ClearObstacles => true,
    }
}

impl World {
    pub open spec fn wf(self) -> bool {
        &&& forall|i: int| 0 <= i < self.arrows.len() ==> #[trigger] self.arrows[i].wf()
        &&& all_obstacles_wf(self.obstacles)
        &&& in_range(self.width)
        &&& in_range(self.height)
        &&& self.parameters.wf()
    }

    pub open spec fn initial(width: int, height: int) -> World {
        World {
            arrows: initial_arrows(),
            obstacles: Seq::empty(),
            width,
            height,
            parameters: FlockingParameters::standard(),
        }
    }

    pub open spec fn with_obstacle(self, x: i64, y: i64) -> World {
        World {
            obstacles: self.obstacles.push(Obstacle { position: Vec2 { x, y }, radius: OBSTACLE_RADIUS }),
            ..self
        }
    }

    pub open spec fn without_obstacles(self) -> World {
        World { obstacles: Seq::empty(), ..self }
    }

    pub open spec fn with_parameters(self, p: FlockingParameters) -> World {
        World { parameters: p, ..self }
    }

    /// The world after one tick: every arrow steps against the same
    /// snapshot of all arrows.
    pub open spec fn advanced(self) -> World {
        World {
            arrows: Seq::new(
                self.arrows.len(),
                |i: int|
                    self.arrows[i].stepped(
                        self.width,
                        self.height,
                        self.obstacles,
                        neighbors_of(self.arrows),
                        self.parameters,
                    ),
            ),
            ..self
        }
    }

    /// The world after a command; one out of range leaves it as it is.
    pub open spec fn applied(self, m: ClientMessage) -> World {
        if !acceptable(m) {
            self
        } else {
            match m {
                ClientMessage::CreateObstacle { x, y } => self.with_obstacle(x, y),
                ClientMessage::UpdateParameters { parameters } => self.with_parameters(parameters),
                ClientMessage::ClearObstacles => self.without_obstacles(),
            }
        }
    }
}

impl Game {
    pub open spec fn wf(&self) -> bool {
        self@.wf()
    }

    pub fn new(screen_width: i64, screen_height: i64) -> (g: Game)
        requires
            in_range(screen_width as int),
            in_range(screen_height as int),
        ensures
            g@ == World::initial(screen_width as int, screen_height as int),
            g.wf(),
    {
        let mut arrows: Vec<Arrow> = Vec::new();
        arrows.push(Arrow::new(
            Vec2::new(0, 50_000_000),
            Vec2::new(20_000_000, 0),
            Vec2::new(100_000, 0),
            40_000_000,
            Color::new(SCALE, 0, 0, SCALE),
        ));
        arrows.push(Arrow::new(
            Vec2::new(0, 120_000_000),
            Vec2::new(30_000_000, 5_000_000),
            Vec2::new(0, 50_000),
            50_000_000,
            Color::new(0, 0, SCALE, SCALE),
        ));
        arrows.push(Arrow::new(
            Vec2::new(0, 200_000_000),
            Vec2::new(15_000_000, -3_000_000),
            Vec2::new(150_000, 0),
            35_000_000,
            Color::new(0, SCALE, 0, SCALE),
        ));
        arrows.push(Arrow::new(
            Vec2::new(0, 280_000_000),
            Vec2::new(25_000_000, 2_000_000),
            Vec2::new(-50_000, 100_000),
            45_000_000,
            Color::new(SCALE, SCALE, 0, SCALE),
        ));
        arrows.push(Arrow::new(
            Vec2::new(0, 360_000_000),
            Vec2::new(18_000_000, -5_000_000),
            Vec2::new(200_000, -100_000),
            55_000_000,
            Color::new(SCALE, 0, SCALE, SCALE),
        ));
        let g = Game {
            arrows,
            obstacles: Vec::new(),
            screen_width,
            screen_height,
            parameters: FlockingParameters::default(),
        };
        assert(g@.arrows =~= initial_arrows());
        assert(g@.obstacles =~= Seq::<Obstacle>::empty());
        g
    }

    /// Appends an obstacle of radius `OBSTACLE_RADIUS` at `(x, y)`.
    pub fn add_obstacle(&mut self, x: i64, y: i64)
        requires
            old(self).wf(),
            in_range(x as int),
            in_range(y as int),
        ensures
            final(self)@ == old(self)@.with_obstacle(x, y),
            final(self).wf(),
    {
        self.obstacles.push(Obstacle { position: Vec2::new(x, y), radius: OBSTACLE_RADIUS });
        assert(self@.arrows == old(self)@.arrows);
        assert(all_obstacles_wf(self@.obstacles)) by {
            assert forall|j: int| 0 <= j < self@.obstacles.len() implies #[trigger] self@.obstacles[j].wf() by {
                if j < old(self)@.obstacles.len() {
                    assert(old(self)@.obstacles[j].wf());
                }
            }
        }
    }

    pub fn clear_obstacles(&mut self)
        requires
            old(self).wf(),
        ensures
            final(self)@ == old(self)@.without_obstacles(),
            final(self).wf(),
    {
        self.obstacles.clear();
        assert(self@.obstacles =~= Seq::<Obstacle>::empty());
    }

    pub fn update_parameters(&mut self, parameters: FlockingParameters)
        requires
            old(self).wf(),
            parameters.wf(),
        ensures
            final(self)@ == old(self)@.with_parameters(parameters),
            final(self).wf(),
    {
        self.parameters = parameters;
        assert(self@.arrows == old(self)@.arrows);
    }

    /// Applies a command from a viewer. One with a value out of range is
    /// dropped: the world stays as it is and the result is `false`. Among
    /// these are parameters whose obstacle avoidance distance is zero: the
    /// avoidance push divides by it.
    pub fn apply(&mut self, m: ClientMessage) -> (accepted: bool)
        requires
            old(self).wf(),
        ensures
            accepted == acceptable(m),
            final(self)@ == old(self)@.applied(m),
            final(self).wf(),
    {
        match m {
            ClientMessage::CreateObstacle { x, y } => {
                if -LIMIT <= x && x <= LIMIT && -LIMIT <= y && y <= LIMIT {
                    self.add_obstacle(x, y);
                    true
                } else {
                    false
                }
            },
            ClientMessage::UpdateParameters { parameters } => {
                if parameters.is_valid() {
                    self.update_parameters(parameters);
                    true
                } else {
                    false
                }
            },
            ClientMessage::ClearObstacles => {
                self.clear_obstacles();
                true
            },
        }
    }

    /// Advances the world by one tick.
    pub fn update(&mut self)
        requires
            old(self).wf(),
        ensures
            final(self)@ == old(self)@.advanced(),
            final(self).wf(),
    {
        let ghost before = self@;
        let mut neighbor_data: Vec<NeighborData> = Vec::new();
        let mut i: usize = 0;
        while i < self.arrows.len()
            invariant
                i <= self.arrows@.len(),
                self@ == before,
                before.wf(),
                neighbor_data@ =~= neighbors_of(before.arrows).take(i as int),
            decreases self.arrows.len() - i,
        {
            let a = &self.arrows[i];
            neighbor_data.push(NeighborData { position: a.position(), velocity: a.velocity(), size: a.size() });
            i = i + 1;
        }
        assert(neighbor_data@ =~= neighbors_of(before.arrows));
        assert(all_neighbors_wf(neighbor_data@)) by {
            assert forall|j: int| 0 <= j < neighbor_data@.len() implies #[trigger] neighbor_data@[j].wf() by {
                assert(before.arrows[j].wf());
            }
        }
        let mut k: usize = 0;
        while k < self.arrows.len()
            invariant
                k <= self.arrows@.len(),
                self.arrows@.len() == before.arrows.len(),
                self.obstacles@ == before.obstacles,
                self.screen_width == before.width,
                self.screen_height == before.height,
                self.parameters == before.parameters,
                before.wf(),
                neighbor_data@ == neighbors_of(before.arrows),
                all_neighbors_wf(neighbor_data@),
                forall|j: int| 0 <= j < k ==> #[trigger] self.arrows@[j] == before.advanced().arrows[j],
                forall|j: int| k <= j < self.arrows@.len() ==> #[trigger] self.arrows@[j] == before.arrows[j],
            decreases self.arrows.len() - k,
        {
            let mut a = self.arrows[k];
            assert(a.wf());
            a.update(
                self.screen_width,
                self.screen_height,
                self.obstacles.as_slice(),
                neighbor_data.as_slice(),
                &self.parameters,
            );
            self.arrows.set(k, a);
            k = k + 1;
        }
        assert(self@.arrows =~= before.advanced().arrows);
        assert(self@.wf()) by {
            assert forall|j: int| 0 <= j < self@.arrows.len() implies #[trigger] self@.arrows[j].wf() by {
                assert(before.arrows[j].wf());
            }
        }
    }

    /// A copy of what viewers are shown: each arrow's position, heading,
    /// size and colour, each obstacle, and the parameters.
    pub fn get_state(&self) -> (r: (Vec<ArrowState>, Vec<ObstacleState>, FlockingParameters))
        ensures
            r.0@ == self.arrows@.map_values(|a: Arrow| arrow_state(a)),
            r.1@ == self.obstacles@.map_values(|o: Obstacle| obstacle_state(o)),
            r.2 == self.parameters,
    {
        let mut arrows: Vec<ArrowState> = Vec::new();
        let mut i: usize = 0;
        while i < self.arrows.len()
            invariant
                i <= self.arrows@.len(),
                arrows@ =~= self.arrows@.take(i as int).map_values(|a: Arrow| arrow_state(a)),
            decreases self.arrows.len() - i,
        {
            let a = &self.arrows[i];
            arrows.push(ArrowState { position: a.position(), angle: a.angle(), size: a.size(), color: a.color() });
            i = i + 1;
        }
        let mut obstacles: Vec<ObstacleState> = Vec::new();
        let mut j: usize = 0;
        while j < self.obstacles.len()
            invariant
                j <= self.obstacles@.len(),
                obstacles@ =~= self.obstacles@.take(j as int).map_values(|o: Obstacle| obstacle_state(o)),
            decreases self.obstacles.len() - j,
        {
            let o = &self.obstacles[j];
            obstacles.push(ObstacleState { position: o.position, radius: o.radius });
            j = j + 1;
        }
        assert(self.arrows@.take(i as int) =~= self.arrows@);
        assert(self.obstacles@.take(j as int) =~= self.obstacles@);
        (arrows, obstacles, self.parameters)
    }

    /// The message that shows viewers the whole world.
    pub fn state_message(&self) -> (m: ServerMessage)
        ensures
            m matches ServerMessage::GameState { arrows, obstacles, screen_width, screen_height, parameters }
                && arrows@ == self.arrows@.map_values(|a: Arrow| arrow_state(a))
                && obstacles@ == self.obstacles@.map_values(|o: Obstacle| obstacle_state(o))
                && screen_width == self.screen_width && screen_height == self.screen_height
                && parameters == self.parameters,
    {
        let (arrows, obstacles, parameters) = self.get_state();
        ServerMessage::GameState {
            arrows,
            obstacles,
            screen_width: self.screen_width,
            screen_height: self.screen_height,
            parameters,
        }
    }
}

/// The world after each command of `msgs` in turn.
pub open spec fn applied_all(w: World, msgs: Seq<ClientMessage>) -> World
    decreases msgs.len(),
{
    if msgs.len() == 0 {
        w
    } else {
        applied_all(w, msgs.drop_last()).applied(msgs.last())
    }
}

/// Clearing the obstacles leaves none, and clearing them again changes
/// nothing; after any commands at all, a clear leaves no obstacle.
pub proof fn clearing_obstacles_is_idempotent(w: World, msgs: Seq<ClientMessage>)
    ensures
        w.applied(ClientMessage::ClearObstacles).obstacles.len() == 0,
        w.applied(ClientMessage::ClearObstacles).applied(ClientMessage::ClearObstacles)
            == w.applied(ClientMessage::ClearObstacles),
        applied_all(w, msgs.push(ClientMessage::ClearObstacles)).obstacles.len() == 0,
{
    assert(msgs.push(ClientMessage::ClearObstacles).drop_last() =~= msgs);
}

} // verus!
