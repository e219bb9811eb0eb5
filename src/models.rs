//! Plain records shared with the program around the library.
use vstd::prelude::*;

verus! {

/// The player's settings: the root of the music directory.
#[derive(Clone, Debug)]
pub struct Config {
    pub music_path: String,
}

impl Default for Config {
    fn default() -> (r: Config)
        ensures
            r.music_path@ == Seq::<char>::empty(),
    {
        Config { music_path: String::new() }
    }
}

/// A named, ordered list of track paths.
#[derive(Clone, Debug)]
pub struct Playlist {
    pub name: String,
    pub tracks: Vec<String>,
}

/// Least time, in milliseconds, between two key presses that are both handled.
pub const KEY_DEBOUNCE_MS: u64 = 100;

/// When the last handled key press came, in milliseconds on a monotonic clock.
#[derive(Clone, Copy, Debug)]
pub struct InputState {
    pub last_key_press: u64,
}

impl InputState {
    /// Starts counting from `now`.
    pub fn new(now: u64) -> (r: Self)
        ensures
            r.last_key_press == now,
    {
        InputState { last_key_press: now }
    }

    /// Whether a key pressed at `now` is handled: more than the debounce time
    /// has passed since the last handled press. A handled press becomes the last.
    pub fn can_process_key(&mut self, now: u64) -> (r: bool)
        ensures
            r == (now as int - old(self).last_key_press as int > KEY_DEBOUNCE_MS as int),
            r ==> final(self).last_key_press == now,
            !r ==> *final(self) == *old(self),
    {
        if now > self.last_key_press && now - self.last_key_press > KEY_DEBOUNCE_MS {
            self.last_key_press = now;
            return true;
        }
        false
    }
}

} // verus!
