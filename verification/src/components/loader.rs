//! Loader: an animated spinner beside a message. `tick` advances the
//! spinner once at least 80 ms have passed since the last frame.

use std::sync::atomic::{AtomicBool, Ordering};
use std::sync::Arc;
use std::time::Instant;

use vstd::prelude::*;
use vstd::string::*;

use crate::component::InputResult;
use crate::keys::match_key::{matches_key, matches_key_spec};
use crate::style::Style;

verus! {

#[verifier::external_type_specification]
#[verifier::external_body]
pub struct ExInstant(std::time::Instant);

/// Calls `Instant::now`: the current time on a monotonic clock. Nothing is
/// said of its value.
#[verifier::external_body]
fn clock_now() -> Instant {
    Instant::now()
}

/// Calls `Instant::duration_since`: whole milliseconds from `earlier` to
/// `later` (0 when `later` is not after `earlier`). Nothing is said of its
/// value, which depends on the clock.
#[verifier::external_body]
fn millis_since(later: &Instant, earlier: &Instant) -> u128 {
    later.duration_since(*earlier).as_millis()
}

/// Calls `Arc::clone`: another handle to the same flag.
#[verifier::external_body]
fn share_flag(flag: &Arc<AtomicBool>) -> Arc<AtomicBool> {
    Arc::clone(flag)
}

/// Milliseconds between spinner frames.
pub const FRAME_INTERVAL_MS: u128 = 80;

/// The default braille spinner frames.
pub open spec fn default_frames() -> Seq<Seq<char>> {
    seq![
        seq!['\u{280B}'],
        seq!['\u{2819}'],
        seq!['\u{2839}'],
        seq!['\u{2838}'],
        seq!['\u{283C}'],
        seq!['\u{2834}'],
        seq!['\u{2826}'],
        seq!['\u{2827}'],
        seq!['\u{2807}'],
        seq!['\u{280F}'],
    ]
}

fn one_char(c: char) -> (s: String)
    ensures
        s@ == seq![c],
{
    let mut s = String::new();
    s.push(c);
    assert(s@ =~= seq![c]);
    s
}

fn default_frame_strings() -> (v: Vec<String>)
    ensures
        crate::strs::string_views(v@) == default_frames(),
{
    let v = vec![
        one_char('\u{280B}'),
        one_char('\u{2819}'),
        one_char('\u{2839}'),
        one_char('\u{2838}'),
        one_char('\u{283C}'),
        one_char('\u{2834}'),
        one_char('\u{2826}'),
        one_char('\u{2827}'),
        one_char('\u{2807}'),
        one_char('\u{280F}'),
    ];
    assert(crate::strs::string_views(v@) =~= default_frames());
    v
}

/// Spinner with a message.
pub struct Loader {
    frames: Vec<String>,
    current_frame: usize,
    spinner_style: Style,
    message_style: Style,
    message: String,
    padding_x: usize,
    running: bool,
    last_frame_time: Instant,
}

impl Loader {
    /// The spinner frames.
    pub closed spec fn frames_view(&self) -> Seq<Seq<char>> {
        crate::strs::string_views(self.frames@)
    }

    /// The index of the frame shown.
    pub closed spec fn frame(&self) -> int {
        self.current_frame as int
    }

    /// The message.
    pub closed spec fn message_view(&self) -> Seq<char> {
        self.message@
    }

    /// Whether the spinner runs.
    pub closed spec fn running(&self) -> bool {
        self.running
    }

    /// The styles of the spinner and of the message.
    pub closed spec fn styles(&self) -> (Style, Style) {
        (self.spinner_style, self.message_style)
    }

    /// A running loader with the default frames.
    pub fn new(spinner_style: Style, message_style: Style, message: &str) -> (l: Loader)
        ensures
            l.frames_view() == default_frames(),
            l.frame() == 0,
            l.message_view() == message@,
            l.running(),
            l.styles() == (spinner_style, message_style),
    {
        Loader {
            frames: default_frame_strings(),
            current_frame: 0,
            spinner_style,
            message_style,
            message: String::from_str(message),
            padding_x: 1,
            running: true,
            last_frame_time: clock_now(),
        }
    }

    /// A running loader with the given frames.
    pub fn with_frames(spinner_style: Style, message_style: Style, message: &str, frames: Vec<String>) -> (l: Loader)
        ensures
            l.frames_view() == crate::strs::string_views(frames@),
            l.frame() == 0,
            l.message_view() == message@,
            l.running(),
            l.styles() == (spinner_style, message_style),
    {
        Loader {
            frames,
            current_frame: 0,
            spinner_style,
            message_style,
            message: String::from_str(message),
            padding_x: 1,
            running: true,
            last_frame_time: clock_now(),
        }
    }

    pub fn set_message(&mut self, message: &str)
        ensures
            final(self).message_view() == message@,
            final(self).frames_view() == old(self).frames_view(),
            final(self).frame() == old(self).frame(),
            final(self).running() == old(self).running(),
            final(self).styles() == old(self).styles(),
    {
        self.message = String::from_str(message);
    }

    pub fn message(&self) -> (r: &str)
        ensures
            r@ == self.message_view(),
    {
        self.message.as_str()
    }

    /// Start (or restart) the spinner; the next frame is due 80 ms from now.
    pub fn start(&mut self)
        ensures
            final(self).running(),
            final(self).message_view() == old(self).message_view(),
            final(self).frames_view() == old(self).frames_view(),
            final(self).frame() == old(self).frame(),
            final(self).styles() == old(self).styles(),
    {
        self.running = true;
        self.last_frame_time = clock_now();
    }

    pub fn stop(&mut self)
        ensures
            !final(self).running(),
            final(self).message_view() == old(self).message_view(),
            final(self).frames_view() == old(self).frames_view(),
            final(self).frame() == old(self).frame(),
            final(self).styles() == old(self).styles(),
    {
        self.running = false;
    }

    pub fn is_running(&self) -> (r: bool)
        ensures
            r == self.running(),
    {
        self.running
    }

    /// Advance the spinner when `elapsed_ms` (the time since the last frame,
    /// read at `now`) reaches the frame interval; a stopped loader or one
    /// without frames never advances. Whether the frame changed.
    pub fn advance(&mut self, elapsed_ms: u128, now: Instant) -> (changed: bool)
        ensures
            changed == (old(self).running() && old(self).frames_view().len() > 0 && elapsed_ms
                >= FRAME_INTERVAL_MS),
            changed ==> final(self).frame() == (old(self).frame() + 1) % (old(self).frames_view().len() as int),
            !changed ==> final(self).frame() == old(self).frame(),
            final(self).running() == old(self).running(),
            final(self).message_view() == old(self).message_view(),
            final(self).frames_view() == old(self).frames_view(),
            final(self).styles() == old(self).styles(),
    {
        if !self.running || self.frames.len() == 0 {
            return false;
        }
        if elapsed_ms >= FRAME_INTERVAL_MS {
            self.current_frame = (self.current_frame % self.frames.len() + 1) % self.frames.len();
            proof {
                let n = self.frames@.len() as int;
                let c = old(self).current_frame as int;
                assert((c % n + 1) % n == (c + 1) % n) by (nonlinear_arith)
                    requires
                        n > 0,
                        c >= 0,
                ;
            }
            self.last_frame_time = now;
            return true;
        }
        false
    }

    /// Advance the spinner if at least 80 ms have passed since the last
    /// frame. Whether the frame changed; a stopped loader or one without
    /// frames never advances.
    pub fn tick(&mut self) -> (changed: bool)
        ensures
            changed ==> old(self).running() && old(self).frames_view().len() > 0 && final(self).frame() == (old(self).frame() + 1) % (old(self).frames_view().len() as int),
            !changed ==> final(self).frame() == old(self).frame(),
            final(self).running() == old(self).running(),
            final(self).message_view() == old(self).message_view(),
            final(self).frames_view() == old(self).frames_view(),
            final(self).styles() == old(self).styles(),
    {
        if !self.running || self.frames.len() == 0 {
            return false;
        }
        let now = clock_now();
        let elapsed = millis_since(&now, &self.last_frame_time);
        self.advance(elapsed, now)
    }

    /// The index of the frame shown.
    pub fn current_frame(&self) -> (r: usize)
        ensures
            r == self.frame(),
    {
        self.current_frame
    }

    /// What the loader shows before wrapping: the styled frame, a space and
    /// the styled message; the styled message alone without frames.
    pub fn build_display(&self) -> (r: String)
        requires
            self.frames_view().len() > 0 ==> self.frame() < self.frames_view().len(),
        ensures
            r@ == if self.frames_view().len() == 0 {
                self.styles().1.styled(self.message_view())
            } else {
                self.styles().0.styled(self.frames_view()[self.frame()]) + seq![' '] + self.styles().1.styled(self.message_view())
            },
    {
        if self.frames.len() == 0 {
            return self.message_style.apply(self.message.as_str());
        }
        let spinner = self.spinner_style.apply(self.frames[self.current_frame].as_str());
        let msg = self.message_style.apply(self.message.as_str());
        let mut r = spinner;
        r.push(' ');
        r.append(msg.as_str());
        r
    }
}

/// A loader that Escape cancels, raising a flag that other work can watch.
pub struct CancellableLoader {
    loader: Loader,
    aborted: Arc<AtomicBool>,
}

impl CancellableLoader {
    /// The loader inside.
    pub closed spec fn inner(&self) -> Loader {
        self.loader
    }

    pub fn new(spinner_style: Style, message_style: Style, message: &str) -> (l: CancellableLoader)
        ensures
            l.inner().frames_view() == default_frames(),
            l.inner().frame() == 0,
            l.inner().message_view() == message@,
            l.inner().running(),
    {
        CancellableLoader {
            loader: Loader::new(spinner_style, message_style, message),
            aborted: Arc::new(AtomicBool::new(false)),
        }
    }

    /// Another handle to the abort flag, for work that should stop when the
    /// loader is cancelled.
    pub fn abort_flag(&self) -> Arc<AtomicBool> {
        share_flag(&self.aborted)
    }

    /// Whether the loader has been cancelled (the flag may also be raised
    /// through another handle).
    pub fn is_aborted(&self) -> bool {
        self.aborted.load(Ordering::Relaxed)
    }

    pub fn loader(&self) -> (r: &Loader)
        ensures
            *r == self.inner(),
    {
        &self.loader
    }

    pub fn loader_mut(&mut self) -> (r: &mut Loader)
        ensures
            *r == old(self).inner(),
            final(self).inner() == *final(r),
    {
        &mut self.loader
    }

    /// Advance the spinner; see `Loader::tick`.
    pub fn tick(&mut self) -> (changed: bool)
        ensures
            !changed ==> final(self).inner().frame() == old(self).inner().frame(),
            changed ==> old(self).inner().running() && final(self).inner().frame() == (old(self).inner().frame() + 1) % (old(self).inner().frames_view().len() as int),
    {
        self.loader.tick()
    }

    /// Escape (alone) cancels: the abort flag is raised and the input
    /// consumed; other input is ignored.
    pub fn handle_input(&mut self, data: &str) -> (r: InputResult)
        ensures
            r == if matches_key_spec(vstd::utf8::encode_utf8(data@), "escape"@, false)
                || matches_key_spec(vstd::utf8::encode_utf8(data@), "esc"@, false) {
                InputResult::Consumed
            } else {
                InputResult::Ignored
            },
    {
        if matches_key(data.as_bytes(), "escape", false) || matches_key(data.as_bytes(), "esc", false) {
            self.aborted.store(true, Ordering::Relaxed);
            return InputResult::Consumed;
        }
        InputResult::Ignored
    }
}

} // verus!
