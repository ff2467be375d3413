use vstd::prelude::*;

use crate::camera::Key;

verus! {

/// `keys` without any occurrence of `key`, the others kept in order.
pub open spec fn without(keys: Seq<Key>, key: Key) -> Seq<Key>
    decreases keys.len(),
{
    if keys.len() == 0 {
        keys
    } else {
        let rest = without(keys.drop_last(), key);
        if keys.last() == key {
            rest
        } else {
            rest.push(keys.last())
        }
    }
}

/// `keys` with `key` appended unless it is already there.
pub open spec fn with_key(keys: Seq<Key>, key: Key) -> Seq<Key> {
    if keys.contains(key) {
        keys
    } else {
        keys.push(key)
    }
}

/// Keyboard state handed from the event loop to the render loop: the keys held
/// down, and the keys pressed since the render loop last took them. Each list holds
/// a key at most once, in order of pressing.
pub struct KeyTracker {
    pub pressed: Vec<Key>,
    pub just_pressed: Vec<Key>,
}

fn contains(keys: &Vec<Key>, key: Key) -> (r: bool)
    ensures
        r == keys@.contains(key),
{
    let mut i: usize = 0;
    while i < keys.len()
        invariant
            i <= keys@.len(),
            forall|j: int| 0 <= j < i ==> keys@[j] != key,
        decreases keys@.len() - i,
    {
        if keys[i] == key {
            return true;
        }
        i = i + 1;
    }
    false
}

impl KeyTracker {
    pub fn new() -> (r: KeyTracker)
        ensures
            r.pressed@.len() == 0,
            r.just_pressed@.len() == 0,
    {
        KeyTracker { pressed: Vec::new(), just_pressed: Vec::new() }
    }

    /// A key went down: it is held, and pressed since the last time the render loop
    /// took the presses.
    pub fn press(&mut self, key: Key)
        ensures
            final(self).pressed@ == with_key(old(self).pressed@, key),
            final(self).just_pressed@ == with_key(old(self).just_pressed@, key),
    {
        if !contains(&self.just_pressed, key) {
            self.just_pressed.push(key);
        }
        if !contains(&self.pressed, key) {
            self.pressed.push(key);
        }
    }

    /// A key went up: it is no longer held.
    pub fn release(&mut self, key: Key)
        ensures
            final(self).pressed@ == without(old(self).pressed@, key),
            final(self).just_pressed@ == old(self).just_pressed@,
    {
        let mut kept: Vec<Key> = Vec::new();
        let mut i: usize = 0;
        while i < self.pressed.len()
            invariant
                i <= self.pressed@.len(),
                kept@ == without(self.pressed@.take(i as int), key),
            decreases self.pressed@.len() - i,
        {
            let k = self.pressed[i];
            proof {
                assert(self.pressed@.take(i + 1).drop_last() =~= self.pressed@.take(i as int));
            }
            if k != key {
                kept.push(k);
            }
            i = i + 1;
        }
        proof {
            assert(self.pressed@.take(self.pressed@.len() as int) =~= self.pressed@);
        }
        self.pressed = kept;
    }

    /// The keys pressed since the last call, in order; the list starts empty again.
    pub fn take_just_pressed(&mut self) -> (r: Vec<Key>)
        ensures
            r@ == old(self).just_pressed@,
            final(self).just_pressed@.len() == 0,
            final(self).pressed@ == old(self).pressed@,
    {
        let mut r: Vec<Key> = Vec::new();
        core::mem::swap(&mut r, &mut self.just_pressed);
        r
    }
}

/// Debug views of the final pass, toggled by keys.
#[derive(Debug, Clone, Copy, PartialEq, Eq, Structural)]
pub struct State {
    pub just_reflections: bool,
    pub just_reflection_vectors: bool,
    pub just_normals: bool,
}

/// Shader mode for the views: 1 reflections only, 2 normals only, 3 reflection
/// vectors only, 0 the full image; the first that is on wins, in that order.
pub open spec fn mode_of(s: State) -> i32 {
    if s.just_reflections {
        1
    } else if s.just_normals {
        2
    } else if s.just_reflection_vectors {
        3
    } else {
        0
    }
}

impl State {
    pub fn new() -> (r: State)
        ensures
            !r.just_reflections && !r.just_reflection_vectors && !r.just_normals,
    {
        State { just_reflections: false, just_reflection_vectors: false, just_normals: false }
    }

    pub fn encode(&self) -> (r: i32)
        ensures
            r == mode_of(*self),
    {
        if self.just_reflections {
            1
        } else if self.just_normals {
            2
        } else if self.just_reflection_vectors {
            3
        } else {
            0
        }
    }

    /// A key press toggles a view: R reflections, N normals, M reflection vectors.
    pub fn toggle(&mut self, key: Key)
        ensures
            final(self).just_reflections == (old(self).just_reflections != (key == Key::R)),
            final(self).just_normals == (old(self).just_normals != (key == Key::N)),
            final(self).just_reflection_vectors == (old(self).just_reflection_vectors != (key == Key::M)),
    {
        match key {
            Key::R => self.just_reflections = !self.just_reflections,
            Key::N => self.just_normals = !self.just_normals,
            Key::M => self.just_reflection_vectors = !self.just_reflection_vectors,
            _ => {},
        }
    }
}

/// GL debug message type for an error.
pub const DEBUG_TYPE_ERROR: u32 = 0x824C;
pub const DEBUG_SEVERITY_HIGH: u32 = 0x9146;
pub const DEBUG_SEVERITY_MEDIUM: u32 = 0x9147;
pub const DEBUG_SEVERITY_LOW: u32 = 0x9148;

/// Severity of a graphics error that must stop the program.
#[derive(Debug, Clone, Copy, PartialEq, Eq, Structural)]
pub enum Severity {
    High,
    Medium,
    Low,
}

pub open spec fn fatal_severity_of(e_type: u32, severity: u32) -> Option<Severity> {
    if e_type != DEBUG_TYPE_ERROR {
        None
    } else if severity == DEBUG_SEVERITY_HIGH {
        Some(Severity::High)
    } else if severity == DEBUG_SEVERITY_MEDIUM {
        Some(Severity::Medium)
    } else if severity == DEBUG_SEVERITY_LOW {
        Some(Severity::Low)
    } else {
        None
    }
}

/// Whether a driver debug message is fatal: an error of high, medium or low
/// severity is; notifications and other message types are not.
pub fn fatal_severity(e_type: u32, severity: u32) -> (r: Option<Severity>)
    ensures
        r == fatal_severity_of(e_type, severity),
{
    if e_type != DEBUG_TYPE_ERROR {
        None
    } else if severity == DEBUG_SEVERITY_HIGH {
        Some(Severity::High)
    } else if severity == DEBUG_SEVERITY_MEDIUM {
        Some(Severity::Medium)
    } else if severity == DEBUG_SEVERITY_LOW {
        Some(Severity::Low)
    } else {
        None
    }
}

} // verus!
