use vstd::prelude::*;

verus! {

/// Stage of the revolving camera's animation towards a selected probe and back.
#[allow(non_camel_case_types)]
#[derive(Debug, Clone, Copy, PartialEq, Eq, Structural)]
pub enum AnimationStage {
    /// Orbiting freely; orbit time advances.
    NONE,
    /// Moving from the orbit towards the selected target.
    INTO,
    /// Held at the selected target.
    STATIONARY,
    /// Moving from the target back to the orbit.
    OUT,
}

/// Keys that the cameras react to.
#[derive(Debug, Clone, Copy, PartialEq, Eq, Structural)]
pub enum Key {
    Key1,
    Key2,
    Key3,
    Key4,
    Key5,
    Key6,
    Key7,
    Key8,
    W,
    A,
    S,
    D,
    Q,
    E,
    R,
    N,
    M,
    Escape,
    Other,
}

/// Target selected by a numbered key: `Key1` selects target 0, ..., `Key8` target 7.
pub open spec fn target_of(key: Key) -> Option<usize> {
    match key {
        Key::Key1 => Some(0),
        Key::Key2 => Some(1),
        Key::Key3 => Some(2),
        Key::Key4 => Some(3),
        Key::Key5 => Some(4),
        Key::Key6 => Some(5),
        Key::Key7 => Some(6),
        Key::Key8 => Some(7),
        _ => None,
    }
}

/// A free-flying camera's move for a key: along column `axis` of its rotation
/// (0 sideways, 1 up, 2 backwards), in the positive direction or against it.
#[derive(Debug, Clone, Copy, PartialEq, Eq, Structural)]
pub struct Movement {
    pub axis: usize,
    pub positive: bool,
}

pub open spec fn movement_of(key: Key) -> Option<Movement> {
    match key {
        Key::A => Some(Movement { axis: 0, positive: false }),
        Key::D => Some(Movement { axis: 0, positive: true }),
        Key::E => Some(Movement { axis: 1, positive: true }),
        Key::Q => Some(Movement { axis: 1, positive: false }),
        Key::W => Some(Movement { axis: 2, positive: false }),
        Key::S => Some(Movement { axis: 2, positive: true }),
        _ => None,
    }
}

impl Key {
    /// The target a numbered key selects.
    pub fn target(&self) -> (r: Option<usize>)
        ensures
            r == target_of(*self),
    {
        match self {
            Key::Key1 => Some(0),
            Key::Key2 => Some(1),
            Key::Key3 => Some(2),
            Key::Key4 => Some(3),
            Key::Key5 => Some(4),
            Key::Key6 => Some(5),
            Key::Key7 => Some(6),
            Key::Key8 => Some(7),
            _ => None,
        }
    }

    /// How a movement key moves a free-flying camera: A/D sideways, Q/E down/up,
    /// W/S forwards/backwards.
    pub fn movement(&self) -> (r: Option<Movement>)
        ensures
            r == movement_of(*self),
    {
        match self {
            Key::A => Some(Movement { axis: 0, positive: false }),
            Key::D => Some(Movement { axis: 0, positive: true }),
            Key::E => Some(Movement { axis: 1, positive: true }),
            Key::Q => Some(Movement { axis: 1, positive: false }),
            Key::W => Some(Movement { axis: 2, positive: false }),
            Key::S => Some(Movement { axis: 2, positive: true }),
            _ => None,
        }
    }
}

/// Interpolation weight `num / den`, between 0 and 1.
#[derive(Debug, Clone, Copy, PartialEq, Eq, Structural)]
pub struct Blend {
    pub num: u64,
    pub den: u64,
}

/// Length of each transition, in milliseconds.
pub const DURATION_MS: u64 = 1000;

/// Number of targets the numbered keys can select.
pub const TARGET_COUNT: usize = 8;

/// State of the revolving camera. Times are in milliseconds; `angle` is the time
/// spent orbiting, which sets the place on the orbit.
#[derive(Debug, Clone, Copy, PartialEq, Eq, Structural)]
pub struct RevolvingCamera {
    pub animation_stage: AnimationStage,
    pub start_time: u64,
    pub angle: u64,
    pub duration: u64,
    /// Index of the selected target.
    pub destination: usize,
    /// Number of targets to choose from.
    pub destinations: usize,
}

/// Time since the stage started, or 0 for a time before its start.
pub open spec fn elapsed(start: u64, time: u64) -> u64 {
    if time >= start {
        (time - start) as u64
    } else {
        0
    }
}

/// Weight of the target view for a stage after `e` ms of it: 0 on the orbit, 1 at the
/// target, `min(e, d) / d` moving in, `1 - min(e, d) / d` moving out.
pub open spec fn blend_of(stage: AnimationStage, e: u64, d: u64) -> Blend {
    let t = if e < d {
        e
    } else {
        d
    };
    match stage {
        AnimationStage::NONE => Blend { num: 0, den: d },
        AnimationStage::INTO => Blend { num: t, den: d },
        AnimationStage::STATIONARY => Blend { num: d, den: d },
        AnimationStage::OUT => Blend { num: (d - t) as u64, den: d },
    }
}

/// The camera after a trigger selecting `destination` at `time`: from the orbit it
/// starts moving in, from the target it starts moving out, and otherwise nothing
/// changes.
pub open spec fn started(c: RevolvingCamera, time: u64, destination: usize) -> RevolvingCamera {
    match c.animation_stage {
        AnimationStage::NONE => RevolvingCamera {
            animation_stage: AnimationStage::INTO,
            start_time: time,
            destination,
            ..c
        },
        AnimationStage::STATIONARY => RevolvingCamera {
            animation_stage: AnimationStage::OUT,
            start_time: time,
            ..c
        },
        _ => c,
    }
}

/// Stage after a transition that has run for its whole duration.
pub open spec fn next_stage(stage: AnimationStage) -> AnimationStage {
    match stage {
        AnimationStage::INTO => AnimationStage::STATIONARY,
        AnimationStage::OUT => AnimationStage::NONE,
        _ => stage,
    }
}

/// The camera after a frame at `time`, `delta_time` after the previous one: orbit time
/// advances while orbiting; once the stage has run for `duration`, a
/// transition ends and the stage clock restarts at `time`.
pub open spec fn advanced(c: RevolvingCamera, time: u64, delta_time: u64) -> RevolvingCamera {
    let angle = if c.animation_stage == AnimationStage::NONE {
        (c.angle + delta_time) as u64
    } else {
        c.angle
    };
    if elapsed(c.start_time, time) >= c.duration {
        RevolvingCamera {
            animation_stage: next_stage(c.animation_stage),
            start_time: time,
            angle,
            ..c
        }
    } else {
        RevolvingCamera { angle, ..c }
    }
}

impl RevolvingCamera {
    pub open spec fn wf(&self) -> bool {
        &&& self.duration > 0
        &&& self.destinations >= TARGET_COUNT
        &&& self.destination < self.destinations
    }

    /// A camera orbiting freely, with `destinations` targets to choose from and
    /// target 0 selected.
    pub fn new(destinations: usize) -> (r: RevolvingCamera)
        requires
            destinations >= TARGET_COUNT,
        ensures
            r.wf(),
            r.animation_stage == AnimationStage::NONE,
            r.start_time == 0,
            r.angle == 0,
            r.duration == DURATION_MS,
            r.destination == 0,
            r.destinations == destinations,
    {
        RevolvingCamera {
            animation_stage: AnimationStage::NONE,
            start_time: 0,
            angle: 0,
            duration: DURATION_MS,
            destination: 0,
            destinations,
        }
    }

    /// Reacts to a trigger selecting `destination` at `time`.
    pub fn start_if_needed(&mut self, time: u64, destination: usize)
        ensures
            *final(self) == started(*old(self), time, destination),
            old(self).wf() && destination < old(self).destinations ==> final(self).wf(),
    {
        match self.animation_stage {
            AnimationStage::NONE => {
                self.destination = destination;
                self.animation_stage = AnimationStage::INTO;
                self.start_time = time;
            },
            AnimationStage::STATIONARY => {
                self.animation_stage = AnimationStage::OUT;
                self.start_time = time;
            },
            _ => {},
        }
    }

    /// Weight of the target view at `time`, without advancing the camera.
    pub fn get_position(&self, time: u64) -> (r: Blend)
        requires
            self.wf(),
        ensures
            r == blend_of(self.animation_stage, elapsed(self.start_time, time), self.duration),
            r.num <= r.den,
            r.den > 0,
    {
        let e = if time >= self.start_time {
            time - self.start_time
        } else {
            0
        };
        self.blend(e)
    }

    fn blend(&self, e: u64) -> (r: Blend)
        requires
            self.duration > 0,
        ensures
            r == blend_of(self.animation_stage, e, self.duration),
            r.num <= r.den,
            r.den > 0,
    {
        let d = self.duration;
        let t = if e < d {
            e
        } else {
            d
        };
        match self.animation_stage {
            AnimationStage::NONE => Blend { num: 0, den: d },
            AnimationStage::INTO => Blend { num: t, den: d },
            AnimationStage::STATIONARY => Blend { num: d, den: d },
            AnimationStage::OUT => Blend { num: d - t, den: d },
        }
    }

    /// Advances the camera to a frame at `time`, `delta_time` after the previous one,
    /// and returns the weight of the target view for that frame: the stage's weight
    /// after the new stage is settled, for the time elapsed in the old one.
    pub fn create_transformation(&mut self, time: u64, delta_time: u64) -> (r: Blend)
        requires
            old(self).wf(),
            old(self).angle + delta_time <= u64::MAX,
        ensures
            final(self).wf(),
            *final(self) == advanced(*old(self), time, delta_time),
            r == blend_of(
                final(self).animation_stage,
                elapsed(old(self).start_time, time),
                old(self).duration,
            ),
            r.num <= r.den,
            r.den > 0,
    {
        if self.animation_stage == AnimationStage::NONE {
            self.angle = self.angle + delta_time;
        }
        let e = if time >= self.start_time {
            time - self.start_time
        } else {
            0
        };
        if e >= self.duration {
            self.animation_stage = match self.animation_stage {
                AnimationStage::INTO => AnimationStage::STATIONARY,
                AnimationStage::OUT => AnimationStage::NONE,
                other => other,
            };
            self.start_time = time;
        }
        self.blend(e)
    }

    /// Reacts to a key at `time`: a numbered key triggers a move towards its target,
    /// or back to the orbit from a target; other keys change nothing.
    pub fn handle_keys(&mut self, key: Key, time: u64)
        requires
            old(self).wf(),
        ensures
            final(self).wf(),
            *final(self) == match target_of(key) {
                Some(t) => started(*old(self), time, t),
                None => *old(self),
            },
    {
        match key.target() {
            Some(t) => self.start_if_needed(time, t),
            None => {},
        }
    }
}

/// A round trip of the revolving camera. From the orbit, a trigger at `t0` starts the
/// move in, with weight 0 at that instant; a frame at `t`, before `duration` has passed,
/// is still moving in, with weight `(t - t0) / duration`; the frame at which
/// `duration` has passed arrives at the target, with weight 1. A trigger there at `t2`
/// starts the move out, and the frame at which `duration` has passed since `t2` has
/// the camera orbiting again, with weight 0.
pub proof fn lemma_round_trip(
    c: RevolvingCamera,
    t0: u64,
    destination: usize,
    t: u64,
    t2: u64,
    delta_time: u64,
)
    requires
        c.wf(),
        c.animation_stage == AnimationStage::NONE,
        t0 <= t < t0 + c.duration,
        t2 >= t0 + c.duration,
        t2 + c.duration <= u64::MAX,
    ensures
        ({
            let d = c.duration;
            let moving_in = started(c, t0, destination);
            let midway = advanced(moving_in, t, delta_time);
            let arrived = advanced(moving_in, (t0 + d) as u64, delta_time);
            let moving_out = started(arrived, t2, destination);
            let back = advanced(moving_out, (t2 + d) as u64, delta_time);
            &&& moving_in.animation_stage == AnimationStage::INTO
            &&& moving_in.destination == destination
            &&& blend_of(moving_in.animation_stage, elapsed(moving_in.start_time, t0), d).num == 0
            &&& midway.animation_stage == AnimationStage::INTO
            &&& blend_of(midway.animation_stage, elapsed(moving_in.start_time, t), d)
                == (Blend { num: (t - t0) as u64, den: d })
            &&& arrived.animation_stage == AnimationStage::STATIONARY
            &&& arrived.start_time == t0 + d
            &&& blend_of(arrived.animation_stage, elapsed(moving_in.start_time, (t0 + d) as u64), d)
                == (Blend { num: d, den: d })
            &&& moving_out.animation_stage == AnimationStage::OUT
            &&& moving_out.start_time == t2
            &&& back.animation_stage == AnimationStage::NONE
            &&& blend_of(back.animation_stage, elapsed(moving_out.start_time, (t2 + d) as u64), d).num == 0
        }),
{
}

} // verus!
