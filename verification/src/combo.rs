//! Timed key sequences: a per-binding state machine that recognises
//! gestures such as a double tap, independent of the physics loop.
//!
//! A combo holds an ordered list of required key presses and two bounds in
//! milliseconds: how long it will wait for the next press, and how long a
//! key may stay held before the press no longer counts. Whenever a bound is
//! exceeded the whole sequence resets to its start.

use vstd::prelude::*;

verus! {

/// A logical key the game reads.
#[derive(Clone, Copy, PartialEq, Eq, Structural, Debug)]
pub enum Key {
    Left,
    Right,
    Up,
    Down,
    Space,
    R,
    LControl,
    LAlt,
    RControl,
    RAlt,
}

/// The input edges of one tick: which keys are held, which were pressed
/// this tick, and which were released this tick.
pub struct InputState {
    pub pressed: Vec<Key>,
    pub just_pressed: Vec<Key>,
    pub just_released: Vec<Key>,
}

fn key_vec_contains(v: &Vec<Key>, k: Key) -> (r: bool)
    ensures
        r == v@.contains(k),
{
    let mut i: usize = 0;
    while i < v.len()
        invariant
            0 <= i <= v@.len(),
            forall|j: int| 0 <= j < i ==> v@[j] != k,
        decreases v@.len() - i,
    {
        if v[i] == k {
            return true;
        }
        i = i + 1;
    }
    false
}

impl InputState {
    /// An input snapshot with no keys held and no edges.
    pub fn idle() -> (r: InputState)
        ensures
            r.pressed@.len() == 0,
            r.just_pressed@.len() == 0,
            r.just_released@.len() == 0,
    {
        InputState { pressed: Vec::new(), just_pressed: Vec::new(), just_released: Vec::new() }
    }

    pub fn is_pressed(&self, k: Key) -> (r: bool)
        ensures
            r == self.pressed@.contains(k),
    {
        key_vec_contains(&self.pressed, k)
    }

    pub fn is_just_pressed(&self, k: Key) -> (r: bool)
        ensures
            r == self.just_pressed@.contains(k),
    {
        key_vec_contains(&self.just_pressed, k)
    }

    pub fn is_just_released(&self, k: Key) -> (r: bool)
        ensures
            r == self.just_released@.contains(k),
    {
        key_vec_contains(&self.just_released, k)
    }
}

/// A key press, optionally guarded by modifier keys that must be held.
pub struct Keypress {
    pub key: Key,
    pub modifiers: Vec<Key>,
}

pub open spec fn modifiers_held(kp: Keypress, input: InputState) -> bool {
    forall|j: int|
        0 <= j < kp.modifiers@.len() ==> input.pressed@.contains(kp.modifiers@[j])
}

/// The press edge of `kp` fired this tick with all its modifiers held.
pub open spec fn keypress_just_pressed(kp: Keypress, input: InputState) -> bool {
    input.just_pressed@.contains(kp.key) && modifiers_held(kp, input)
}

/// The release edge of `kp` fired this tick with all its modifiers held.
pub open spec fn keypress_just_released(kp: Keypress, input: InputState) -> bool {
    input.just_released@.contains(kp.key) && modifiers_held(kp, input)
}

impl Keypress {
    pub fn new(key: Key) -> (r: Keypress)
        ensures
            r.key == key,
            r.modifiers@.len() == 0,
    {
        Keypress { key, modifiers: Vec::new() }
    }

    pub fn with_modifier(&mut self, modifier: Key)
        ensures
            final(self).key == old(self).key,
            final(self).modifiers@ == old(self).modifiers@.push(modifier),
    {
        self.modifiers.push(modifier);
    }

    pub fn just_pressed(&self, input: &InputState) -> (r: bool)
        ensures
            r == keypress_just_pressed(*self, *input),
    {
        if input.is_just_pressed(self.key) {
            let mut i: usize = 0;
            while i < self.modifiers.len()
                invariant
                    0 <= i <= self.modifiers@.len(),
                    forall|j: int| 0 <= j < i ==> input.pressed@.contains(self.modifiers@[j]),
                decreases self.modifiers@.len() - i,
            {
                if !input.is_pressed(self.modifiers[i]) {
                    return false;
                }
                i = i + 1;
            }
            true
        } else {
            false
        }
    }

    pub fn just_released(&self, input: &InputState) -> (r: bool)
        ensures
            r == keypress_just_released(*self, *input),
    {
        if input.is_just_released(self.key) {
            let mut i: usize = 0;
            while i < self.modifiers.len()
                invariant
                    0 <= i <= self.modifiers@.len(),
                    forall|j: int| 0 <= j < i ==> input.pressed@.contains(self.modifiers@[j]),
                decreases self.modifiers@.len() - i,
            {
                if !input.is_pressed(self.modifiers[i]) {
                    return false;
                }
                i = i + 1;
            }
            true
        } else {
            false
        }
    }
}

#[derive(Clone, Copy, PartialEq, Eq, Structural, Debug)]
pub enum WaitForKey {
    Press,
    Release,
}

/// The recogniser for one timed key sequence.
pub struct KeyCombo {
    pub keypress_sequence: Vec<Keypress>,
    pub max_wait_for_release: u64,
    pub wait_for_release_timer: u64,
    pub max_wait_for_press: u64,
    pub wait_for_press_timer: u64,
    pub waiting_for: WaitForKey,
    pub index: usize,
    pub done_on_press: bool,
}

pub open spec fn combo_wf(c: KeyCombo) -> bool {
    1 <= c.keypress_sequence@.len() && c.index < c.keypress_sequence@.len()
}

/// Addition that stops at `u64::MAX` instead of overflowing; the bounds a
/// combo is configured with are far below it, so saturation always lands in
/// the timed-out case.
pub open spec fn sat_add_spec(a: int, b: int) -> int {
    if a + b > u64::MAX as int {
        u64::MAX as int
    } else {
        a + b
    }
}

fn sat_add_u64(a: u64, b: u64) -> (r: u64)
    ensures
        r == sat_add_spec(a as int, b as int),
{
    if a > u64::MAX - b {
        u64::MAX
    } else {
        a + b
    }
}

/// A combo sent back to the start of its sequence.
pub open spec fn reset_spec(c: KeyCombo) -> KeyCombo {
    KeyCombo {
        wait_for_release_timer: 0,
        wait_for_press_timer: 0,
        waiting_for: WaitForKey::Press,
        index: 0,
        ..c
    }
}

/// One tick of the recogniser before the completion check: the timer of the
/// awaited event advances; the expected edge moves the machine on, and an
/// exceeded bound resets the sequence.
pub open spec fn combo_after_wait(c: KeyCombo, input: InputState, dt: int) -> KeyCombo {
    let cur = c.keypress_sequence@[c.index as int];
    match c.waiting_for {
        WaitForKey::Press => {
            let t = sat_add_spec(c.wait_for_press_timer as int, dt) as u64;
            let stepped = KeyCombo { wait_for_press_timer: t, ..c };
            if keypress_just_pressed(cur, input) {
                KeyCombo { waiting_for: WaitForKey::Release, ..stepped }
            } else if t >= c.max_wait_for_press {
                reset_spec(stepped)
            } else {
                stepped
            }
        },
        WaitForKey::Release => {
            let t = sat_add_spec(c.wait_for_release_timer as int, dt) as u64;
            let stepped = KeyCombo { wait_for_release_timer: t, ..c };
            if keypress_just_released(cur, input) {
                KeyCombo {
                    index: (c.index + 1) as usize,
                    waiting_for: WaitForKey::Press,
                    ..stepped
                }
            } else if t >= c.max_wait_for_release {
                reset_spec(stepped)
            } else {
                stepped
            }
        },
    }
}

/// Whether a combo's index has passed the end of its sequence: one past the
/// last entry, or at the last entry for a combo that fires on press.
pub open spec fn combo_finished(c: KeyCombo) -> bool {
    ||| !c.done_on_press && c.index >= c.keypress_sequence@.len()
    ||| c.done_on_press && c.index + 1 >= c.keypress_sequence@.len()
}

/// The combo's state after one full tick: the wait step, then a reset if
/// the sequence completed.
pub open spec fn combo_step(c: KeyCombo, input: InputState, dt: int) -> KeyCombo {
    let c2 = combo_after_wait(c, input, dt);
    if combo_finished(c2) {
        reset_spec(c2)
    } else {
        c2
    }
}

/// Whether the tick reports the combo as fully entered.
pub open spec fn combo_step_done(c: KeyCombo, input: InputState, dt: int) -> bool {
    combo_finished(combo_after_wait(c, input, dt))
}

impl KeyCombo {
    /// Register a key combo: the sequence of presses that triggers it, how
    /// long to allow before each press, how long a key may be held, and
    /// whether the final key's press (rather than release) completes it.
    pub fn new(
        keypress_sequence: Vec<Keypress>,
        max_wait_for_press: u64,
        max_wait_for_release: u64,
        done_on_press: bool,
    ) -> (r: KeyCombo)
        requires
            keypress_sequence@.len() >= 1,
        ensures
            r.keypress_sequence == keypress_sequence,
            r.max_wait_for_press == max_wait_for_press,
            r.max_wait_for_release == max_wait_for_release,
            r.done_on_press == done_on_press,
            r.wait_for_press_timer == 0,
            r.wait_for_release_timer == 0,
            r.waiting_for == WaitForKey::Press,
            r.index == 0,
            combo_wf(r),
    {
        KeyCombo {
            keypress_sequence,
            max_wait_for_release,
            wait_for_release_timer: 0,
            max_wait_for_press,
            wait_for_press_timer: 0,
            waiting_for: WaitForKey::Press,
            index: 0,
            done_on_press,
        }
    }

    /// Send the combo back to the start of its sequence.
    pub fn reset(&mut self)
        ensures
            *final(self) == reset_spec(*old(self)),
            combo_wf(*old(self)) ==> combo_wf(*final(self)),
    {
        self.wait_for_release_timer = 0;
        self.wait_for_press_timer = 0;
        self.waiting_for = WaitForKey::Press;
        self.index = 0;
    }

    /// Advance the recogniser by one tick and report whether the combo has
    /// been fully entered; a completed or timed-out combo starts over.
    pub fn done(&mut self, input: &InputState, dt: u64) -> (r: bool)
        requires
            combo_wf(*old(self)),
        ensures
            *final(self) == combo_step(*old(self), *input, dt as int),
            r == combo_step_done(*old(self), *input, dt as int),
            combo_wf(*final(self)),
    {
        let seq_len: usize = self.keypress_sequence.len();
        let mut reset_needed: bool = false;
        match self.waiting_for {
            WaitForKey::Press => {
                self.wait_for_press_timer = sat_add_u64(self.wait_for_press_timer, dt);
                if self.keypress_sequence[self.index].just_pressed(input) {
                    self.waiting_for = WaitForKey::Release;
                } else if self.wait_for_press_timer >= self.max_wait_for_press {
                    reset_needed = true;
                }
            },
            WaitForKey::Release => {
                self.wait_for_release_timer = sat_add_u64(self.wait_for_release_timer, dt);
                if self.keypress_sequence[self.index].just_released(input) {
                    self.index = self.index + 1;
                    self.waiting_for = WaitForKey::Press;
                } else if self.wait_for_release_timer >= self.max_wait_for_release {
                    reset_needed = true;
                }
            },
        }
        if reset_needed {
            self.reset();
        }
        if (!self.done_on_press && self.index >= self.keypress_sequence.len()) || (self.done_on_press
            && self.index >= self.keypress_sequence.len() - 1) {
            self.reset();
            true
        } else {
            false
        }
    }
}

/// Law: a combo of two or more keys that completes on release reports done
/// on a tick only if, entering that tick, it was waiting for the release of
/// the last key of its sequence and that release edge fired.
pub proof fn lemma_done_needs_final_release(c: KeyCombo, input: InputState, dt: int)
    requires
        combo_wf(c),
        !c.done_on_press,
        dt >= 0,
        combo_step_done(c, input, dt),
    ensures
        c.waiting_for == WaitForKey::Release,
        c.index + 1 == c.keypress_sequence@.len(),
        keypress_just_released(c.keypress_sequence@[c.index as int], input),
{
}

/// Law: while the awaited edge does not fire and the awaited timer stays
/// within its bound, the combo neither advances nor reports done.
pub proof fn lemma_quiet_tick_holds_position(c: KeyCombo, input: InputState, dt: int)
    requires
        combo_wf(c),
        !c.done_on_press,
        dt >= 0,
        c.waiting_for == WaitForKey::Press ==> !keypress_just_pressed(
            c.keypress_sequence@[c.index as int],
            input,
        ) && sat_add_spec(c.wait_for_press_timer as int, dt) < c.max_wait_for_press,
        c.waiting_for == WaitForKey::Release ==> !keypress_just_released(
            c.keypress_sequence@[c.index as int],
            input,
        ) && sat_add_spec(c.wait_for_release_timer as int, dt) < c.max_wait_for_release,
    ensures
        combo_step(c, input, dt).index == c.index,
        combo_step(c, input, dt).waiting_for == c.waiting_for,
        !combo_step_done(c, input, dt),
{
}

/// Law: an exceeded timer sends the combo back to the start of its
/// sequence, and a combo of two or more keys reports no completion on such
/// a tick.
pub proof fn lemma_timeout_resets(c: KeyCombo, input: InputState, dt: int)
    requires
        combo_wf(c),
        c.keypress_sequence@.len() >= 2,
        dt >= 0,
        c.waiting_for == WaitForKey::Press ==> !keypress_just_pressed(
            c.keypress_sequence@[c.index as int],
            input,
        ) && sat_add_spec(c.wait_for_press_timer as int, dt) >= c.max_wait_for_press,
        c.waiting_for == WaitForKey::Release ==> !keypress_just_released(
            c.keypress_sequence@[c.index as int],
            input,
        ) && sat_add_spec(c.wait_for_release_timer as int, dt) >= c.max_wait_for_release,
    ensures
        combo_step(c, input, dt).index == 0,
        combo_step(c, input, dt).waiting_for == WaitForKey::Press,
        combo_step(c, input, dt).wait_for_press_timer == 0,
        combo_step(c, input, dt).wait_for_release_timer == 0,
        !combo_step_done(c, input, dt),
{
}

} // verus!
