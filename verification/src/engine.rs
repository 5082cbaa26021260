//! The engine: one window for each channel, and the level after each sample of the last
//! buffer, interleaved as the buffer was.

use crate::math::{mean_of, sum_of};
use crate::settings::{Level, RmsError, Settings, Wave, WindowSize};
use crate::window::{fed, lemma_fed_push, resized, rms_of, silence, Window};
use vstd::prelude::*;

verus! {

/// What an engine holds, as plain mathematics.
pub struct RmsView {
    /// The length of the windows, as the engine was made with it.
    pub window: WindowSize,
    /// The slots of each channel's window, oldest first.
    pub windows: Seq<Seq<int>>,
    /// The level after each sample of the last buffer: that of frame `f` and channel `c`
    /// is at `f * n_channels + c`.
    pub interleaved_rms: Seq<int>,
}

impl RmsView {
    /// The number of channels.
    pub open spec fn n_channels(self) -> nat {
        self.windows.len()
    }

    /// The number of whole frames of levels.
    pub open spec fn n_frames(self) -> nat {
        if self.windows.len() == 0 {
            0
        } else {
            self.interleaved_rms.len() / self.windows.len()
        }
    }

    /// The levels are whole frames: one for each channel of each frame.
    pub open spec fn is_whole_frames(self) -> bool {
        self.interleaved_rms.len() == self.n_frames() * self.n_channels()
    }

    /// The levels of frame `f`, one for each channel.
    pub open spec fn frame(self, f: int) -> Seq<int> {
        self.interleaved_rms.subrange(
            f * self.windows.len(),
            f * self.windows.len() + self.windows.len(),
        )
    }
}

/// The levels that a slice holds.
pub open spec fn levels(s: Seq<Level>) -> Seq<int> {
    Seq::new(s.len(), |i: int| s[i] as int)
}

/// The slots of each window in `windows`.
spec fn slots(windows: Seq<Window>) -> Seq<Seq<int>> {
    Seq::new(windows.len(), |j: int| windows[j]@)
}

/// The samples of channel `c` in the first `n_frames` frames of an interleaved buffer of
/// `n_channels` channels.
pub open spec fn channel_samples(
    samples: Seq<Wave>,
    n_channels: nat,
    c: int,
    n_frames: nat,
) -> Seq<int> {
    Seq::new(n_frames, |f: int| samples[f * n_channels + c] as int)
}

/// The windows as an update has them before it lets a sample in: `n_channels` of them,
/// each of `n_window_samples` slots. A window that was there is resized, a new one is
/// silent, and those of channels that are gone are dropped.
pub open spec fn reconciled(
    windows: Seq<Seq<int>>,
    n_channels: nat,
    n_window_samples: nat,
) -> Seq<Seq<int>> {
    Seq::new(
        n_channels,
        |c: int|
            if c < windows.len() {
                resized(windows[c], n_window_samples)
            } else {
                silence(n_window_samples)
            },
    )
}

/// The levels as an update has them before it stores one: `n` of them. Those that were
/// there stay, new ones are zero, and those beyond `n` are dropped.
pub open spec fn refilled(levels: Seq<int>, n: nat) -> Seq<int> {
    Seq::new(
        n,
        |i: int|
            if i < levels.len() {
                levels[i]
            } else {
                0
            },
    )
}

/// The engine after one pass of reconciliation with the format `settings` and without a
/// sample: the windows and the levels are as many and as long as a buffer of that format
/// asks for.
pub open spec fn prepared(before: RmsView, settings: Settings) -> RmsView {
    RmsView {
        window: before.window,
        windows: reconciled(
            before.windows,
            settings.channels as nat,
            before.window.spec_samples(settings.sample_hz) as nat,
        ),
        interleaved_rms: refilled(before.interleaved_rms, settings.spec_buffer_size() as nat),
    }
}

/// The level at index `i` of the interleaved levels: that of the sample's channel, whose
/// window started as `start` holds it, right after the sample at `i` has entered.
pub open spec fn level_at(
    start: Seq<Seq<int>>,
    samples: Seq<Wave>,
    n_channels: nat,
    i: int,
) -> int {
    let c = i % (n_channels as int);
    let f = i / (n_channels as int);
    rms_of(fed(start[c], channel_samples(samples, n_channels, c, (f + 1) as nat)))
}

/// The engine after an update with a buffer of the format `settings`.
pub open spec fn updated(before: RmsView, samples: Seq<Wave>, settings: Settings) -> RmsView {
    let n_channels = settings.channels as nat;
    let n_frames = settings.frames as nat;
    let n_window_samples = before.window.spec_samples(settings.sample_hz) as nat;
    let start = reconciled(before.windows, n_channels, n_window_samples);
    RmsView {
        window: before.window,
        windows: Seq::new(
            n_channels,
            |c: int| fed(start[c], channel_samples(samples, n_channels, c, n_frames)),
        ),
        interleaved_rms: Seq::new(
            n_frames * n_channels,
            |i: int| level_at(start, samples, n_channels, i),
        ),
    }
}

/// The sample of frame `f` and channel `c` lies at `f * n_channels + c`, inside the
/// buffer, and that index gives back the frame as its quotient by the number of channels
/// and the channel as its remainder.
pub proof fn lemma_index_in_frame(f: int, c: int, n_frames: int, n_channels: int)
    requires
        0 <= f < n_frames,
        0 <= c < n_channels,
    ensures
        0 <= f * n_channels + c < n_frames * n_channels,
        (f * n_channels + c) / n_channels == f,
        (f * n_channels + c) % n_channels == c,
{
    assert(0 <= f * n_channels && f * n_channels + n_channels <= n_frames * n_channels)
        by (nonlinear_arith)
        requires
            0 <= f < n_frames,
            0 < n_channels,
    ;
    vstd::arithmetic::div_mod::lemma_fundamental_div_mod_converse(
        f * n_channels + c,
        n_channels,
        f,
        c,
    );
}

/// The levels of `n_frames` frames of `n_channels` channels are `n_frames` whole frames.
proof fn lemma_whole_frames(n_frames: int, n_channels: int)
    requires
        0 <= n_frames,
        0 < n_channels,
    ensures
        (n_frames * n_channels) / n_channels == n_frames,
{
    vstd::arithmetic::div_mod::lemma_fundamental_div_mod_converse(
        n_frames * n_channels,
        n_channels,
        n_frames,
        0,
    );
}

/// A frame below the number of whole frames lies inside the levels.
proof fn lemma_frame_in_levels(f: int, n_channels: int, n_levels: int)
    requires
        0 <= n_levels,
        0 < n_channels,
        0 <= f < n_levels / n_channels,
    ensures
        0 <= f * n_channels,
        f * n_channels + n_channels <= n_levels,
{
    let n_frames = n_levels / n_channels;
    assert(n_frames * n_channels <= n_levels) by (nonlinear_arith)
        requires
            0 <= n_levels,
            0 < n_channels,
            n_frames == n_levels / n_channels,
    ;
    assert(0 <= f * n_channels && f * n_channels + n_channels <= n_frames * n_channels)
        by (nonlinear_arith)
        requires
            0 <= f < n_frames,
            0 < n_channels,
    ;
}

/// The samples of a channel in one frame more are those before and the channel's sample
/// of that frame.
proof fn lemma_channel_samples_step(samples: Seq<Wave>, n_channels: nat, c: int, f: nat)
    ensures
        channel_samples(samples, n_channels, c, f + 1) == channel_samples(
            samples,
            n_channels,
            c,
            f,
        ).push(samples[f * n_channels + c] as int),
{
}

/// The sliding-window level of each channel of a stream of interleaved buffers.
#[derive(Debug)]
pub struct Rms {
    /// The length of the windows.
    window: WindowSize,
    /// The level after each sample of the last buffer, interleaved as the buffer was.
    interleaved_rms: Vec<Level>,
    /// A window for each channel.
    window_per_channel: Vec<Window>,
}

impl View for Rms {
    type V = RmsView;

    closed spec fn view(&self) -> RmsView {
        RmsView {
            window: self.window,
            windows: slots(self.window_per_channel@),
            interleaved_rms: levels(self.interleaved_rms@),
        }
    }
}

impl Clone for Rms {
    /// An engine that holds the same.
    fn clone(&self) -> (rms: Self)
        ensures
            rms@ == self@,
            rms.wf() == self.wf(),
    {
        let mut window_per_channel: Vec<Window> = Vec::new();
        let n_channels = self.window_per_channel.len();
        for c in 0..n_channels
            invariant
                n_channels == self.window_per_channel@.len(),
                window_per_channel@.len() == c,
                forall|k: int|
                    0 <= k < c ==> (#[trigger] window_per_channel@[k])@
                        == self.window_per_channel@[k]@,
                forall|k: int|
                    0 <= k < c ==> (#[trigger] window_per_channel@[k]).wf()
                        == self.window_per_channel@[k].wf(),
        {
            window_per_channel.push(self.window_per_channel[c].clone());
        }
        let rms = Rms {
            window: self.window,
            interleaved_rms: self.interleaved_rms.clone(),
            window_per_channel,
        };
        assert(rms@.windows =~= self@.windows);
        assert(rms.windows_wf() == self.windows_wf()) by {
            if rms.windows_wf() {
                assert forall|j: int| 0 <= j < self.window_per_channel@.len() implies (
                #[trigger] self.window_per_channel@[j]).wf() by {
                    assert(rms.window_per_channel@[j].wf());
                }
            }
        }
        rms
    }
}

impl Rms {
    /// Every window's running sum is the sum of its slots.
    spec fn windows_wf(&self) -> bool {
        forall|j: int|
            0 <= j < self.window_per_channel@.len() ==> (
            #[trigger] self.window_per_channel@[j]).wf()
    }

    /// Every window's running sum is the sum of its slots, and the levels are whole frames.
    pub closed spec fn wf(&self) -> bool {
        self.windows_wf() && self@.is_whole_frames()
    }

    /// The levels of a well-formed engine are whole frames.
    pub proof fn lemma_levels_are_whole_frames(&self)
        requires
            self.wf(),
        ensures
            self@.is_whole_frames(),
    {
    }

    /// Every slot of every window is a natural number that a `u64` holds, and every level
    /// one that a `u32` holds.
    pub proof fn lemma_values_are_bounded(&self)
        ensures
            forall|c: int, i: int|
                0 <= c < self@.windows.len() && 0 <= i < self@.windows[c].len() ==> 0
                    <= #[trigger] self@.windows[c][i] <= u64::MAX,
            forall|i: int|
                0 <= i < self@.interleaved_rms.len() ==> 0 <= #[trigger] self@.interleaved_rms[i]
                    <= u32::MAX,
    {
        assert forall|c: int, i: int|
            0 <= c < self@.windows.len() && 0 <= i < self@.windows[c].len() implies 0
            <= #[trigger] self@.windows[c][i] <= u64::MAX by {
            self.window_per_channel@[c].lemma_slots_are_bounded();
        }
    }

    /// An engine without channels and without levels, for windows of the length `window`.
    pub fn new(window: WindowSize) -> (rms: Self)
        ensures
            rms.wf(),
            rms@ == (RmsView { window, windows: Seq::empty(), interleaved_rms: Seq::empty() }),
    {
        let rms = Rms { window, interleaved_rms: Vec::new(), window_per_channel: Vec::new() };
        assert(rms@.windows =~= Seq::empty());
        assert(rms@.interleaved_rms =~= Seq::empty());
        rms
    }

    /// An engine made ready for buffers of the format `settings`: what `new` gives, with
    /// the windows and the levels as an update with that format has them before it lets a
    /// sample in. There is a silent window for each channel, of the length that `window` has
    /// at the sample rate of `settings`, and a level of zero for each sample of a buffer.
    /// It is refused where the window spans more samples than a window can hold.
    pub fn with_capacity(window: WindowSize, settings: Settings) -> (r: Result<Self, RmsError>)
        ensures
            r.is_ok() <==> window.spec_samples(settings.sample_hz) <= usize::MAX,
            match r {
                Ok(rms) => {
                    &&& window.spec_samples(settings.sample_hz) <= usize::MAX
                    &&& rms.wf()
                    &&& rms@ == prepared(
                        (RmsView { window, windows: Seq::empty(), interleaved_rms: Seq::empty() }),
                        settings,
                    )
                    &&& rms@.n_channels() == settings.channels
                    &&& forall|c: int|
                        0 <= c < settings.channels ==> #[trigger] rms@.windows[c] == silence(
                            window.spec_samples(settings.sample_hz) as nat,
                        )
                    &&& rms@.interleaved_rms.len() == settings.spec_buffer_size()
                    &&& forall|i: int|
                        0 <= i < rms@.interleaved_rms.len() ==> #[trigger] rms@.interleaved_rms[i]
                            == 0
                },
                Err(e) => e == RmsError::WindowTooLong && window.spec_samples(settings.sample_hz)
                    > usize::MAX,
            },
    {
        let n_window_samples = match window.samples(settings.sample_hz) {
            Some(n) => n,
            None => {
                return Err(RmsError::WindowTooLong);
            },
        };
        let n_samples = settings.buffer_size();
        let mut rms = Rms {
            window,
            interleaved_rms: Vec::with_capacity(n_samples),
            window_per_channel: Vec::new(),
        };
        assert(rms@.windows =~= Seq::empty());
        assert(rms@.interleaved_rms =~= Seq::empty());
        rms.reconcile(settings.channels as usize, n_window_samples);
        rms.resize_levels(n_samples);
        proof {
            if settings.channels > 0 {
                lemma_whole_frames(settings.frames as int, settings.channels as int);
            } else {
                assert(settings.frames * settings.channels == 0) by (nonlinear_arith)
                    requires
                        settings.channels == 0,
                ;
            }
        }
        Ok(rms)
    }

    /// Makes the windows `n_channels`, each of `n_window_samples` slots.
    fn reconcile(&mut self, n_channels: usize, n_window_samples: usize)
        requires
            old(self).windows_wf(),
        ensures
            final(self).windows_wf(),
            final(self)@.window == old(self)@.window,
            final(self).interleaved_rms == old(self).interleaved_rms,
            final(self).window_per_channel@.len() == n_channels,
            final(self)@.windows == reconciled(
                old(self)@.windows,
                n_channels as nat,
                n_window_samples as nat,
            ),
    {
        let ghost before = self@.windows;
        if self.window_per_channel.len() > n_channels {
            self.window_per_channel.truncate(n_channels);
        } else {
            while self.window_per_channel.len() < n_channels
                invariant
                    self.windows_wf(),
                    self.window == old(self).window,
                    self.interleaved_rms == old(self).interleaved_rms,
                    before.len() <= self.window_per_channel@.len() <= n_channels,
                    forall|c: int|
                        0 <= c < before.len() ==> (#[trigger] self.window_per_channel@[c])@
                            == before[c],
                    forall|c: int|
                        before.len() <= c < self.window_per_channel@.len() ==> (
                        #[trigger] self.window_per_channel@[c])@ == silence(
                            n_window_samples as nat,
                        ),
                decreases n_channels - self.window_per_channel@.len(),
            {
                self.window_per_channel.push(Window::new(n_window_samples));
            }
        }
        for c in 0..n_channels
            invariant
                self.windows_wf(),
                self.window == old(self).window,
                self.interleaved_rms == old(self).interleaved_rms,
                self.window_per_channel@.len() == n_channels,
                forall|k: int|
                    0 <= k < c ==> (#[trigger] self.window_per_channel@[k])@ == reconciled(
                        before,
                        n_channels as nat,
                        n_window_samples as nat,
                    )[k],
                forall|k: int|
                    c <= k < n_channels && k < before.len()
                        ==> (#[trigger] self.window_per_channel@[k])@ == before[k],
                forall|k: int|
                    c <= k < n_channels && before.len() <= k
                        ==> (#[trigger] self.window_per_channel@[k])@ == silence(
                        n_window_samples as nat,
                    ),
        {
            if self.window_per_channel[c].len() != n_window_samples {
                self.window_per_channel[c].set_len(n_window_samples);
            }
        }
    }

    /// Makes the levels `n_samples`: drops those beyond, or fills up with zero.
    fn resize_levels(&mut self, n_samples: usize)
        ensures
            final(self).window == old(self).window,
            final(self).window_per_channel == old(self).window_per_channel,
            final(self).interleaved_rms@.len() == n_samples,
            final(self)@.interleaved_rms == refilled(old(self)@.interleaved_rms, n_samples as nat),
    {
        let ghost before = self@.interleaved_rms;
        if self.interleaved_rms.len() > n_samples {
            self.interleaved_rms.truncate(n_samples);
        } else {
            while self.interleaved_rms.len() < n_samples
                invariant
                    self.window == old(self).window,
                    self.window_per_channel == old(self).window_per_channel,
                    self.interleaved_rms@.len() <= n_samples,
                    self@.interleaved_rms == refilled(
                        before,
                        self.interleaved_rms@.len() as nat,
                    ),
                    before.len() <= self.interleaved_rms@.len(),
                decreases n_samples - self.interleaved_rms@.len(),
            {
                let ghost filled = self@.interleaved_rms;
                self.interleaved_rms.push(0);
                assert(self@.interleaved_rms =~= filled.push(0));
            }
        }
    }

    /// Takes the next buffer of interleaved samples, of the format `settings`.
    ///
    /// The windows become as many as the buffer has channels, each as long as the engine's
    /// window is at the buffer's sample rate: a window that was there keeps its state and is
    /// resized, a new one is silent. Then every sample enters the window of its channel, in
    /// the buffer's order, and the level of that window right after it is stored at the
    /// sample's index.
    ///
    /// A buffer that does not hold `frames * channels` samples is refused, and so is a
    /// window that spans more samples than a window can hold. The engine is then unchanged.
    pub fn update(&mut self, samples: &[Wave], settings: Settings) -> (r: Result<(), RmsError>)
        requires
            old(self).wf(),
        ensures
            final(self).wf(),
            r.is_ok() <==> (samples@.len() == settings.spec_buffer_size()
                && old(self)@.window.spec_samples(settings.sample_hz) <= usize::MAX),
            match r {
                Ok(_) => {
                    &&& samples@.len() == settings.spec_buffer_size()
                    &&& old(self)@.window.spec_samples(settings.sample_hz) <= usize::MAX
                    &&& final(self)@ == updated(old(self)@, samples@, settings)
                    &&& final(self)@.n_channels() == settings.channels
                    &&& final(self)@.interleaved_rms.len() == settings.spec_buffer_size()
                },
                Err(RmsError::BufferMismatch) => {
                    &&& samples@.len() != settings.spec_buffer_size()
                    &&& final(self)@ == old(self)@
                },
                Err(RmsError::WindowTooLong) => {
                    &&& samples@.len() == settings.spec_buffer_size()
                    &&& old(self)@.window.spec_samples(settings.sample_hz) > usize::MAX
                    &&& final(self)@ == old(self)@
                },
            },
    {
        let n_samples = settings.buffer_size();
        if samples.len() != n_samples {
            return Err(RmsError::BufferMismatch);
        }
        let n_window_samples = match self.window.samples(settings.sample_hz) {
            Some(n) => n,
            None => {
                return Err(RmsError::WindowTooLong);
            },
        };
        let n_channels = settings.channels as usize;
        let n_frames = settings.frames as usize;
        self.reconcile(n_channels, n_window_samples);
        self.resize_levels(n_samples);
        let ghost start = self@.windows;
        let mut idx: usize = 0;
        assert(0 * n_channels == 0);
        for f in 0..n_frames
            invariant
                self.windows_wf(),
                self.window == old(self).window,
                samples@.len() == n_samples,
                n_samples == n_frames * n_channels,
                self.interleaved_rms@.len() == n_samples,
                self.window_per_channel@.len() == n_channels,
                start.len() == n_channels,
                idx == f * n_channels,
                idx <= n_samples,
                forall|k: int|
                    0 <= k < n_channels ==> (#[trigger] self.window_per_channel@[k])@ == fed(
                        start[k],
                        channel_samples(samples@, n_channels as nat, k, f as nat),
                    ),
                forall|i: int|
                    0 <= i < idx ==> #[trigger] self.interleaved_rms@[i] == level_at(
                        start,
                        samples@,
                        n_channels as nat,
                        i,
                    ),
        {
            for c in 0..n_channels
                invariant
                    self.windows_wf(),
                    self.window == old(self).window,
                    samples@.len() == n_samples,
                    n_samples == n_frames * n_channels,
                    self.interleaved_rms@.len() == n_samples,
                    self.window_per_channel@.len() == n_channels,
                    start.len() == n_channels,
                    f < n_frames,
                    idx == f * n_channels + c,
                    idx <= n_samples,
                    forall|k: int|
                        0 <= k < c ==> (#[trigger] self.window_per_channel@[k])@ == fed(
                            start[k],
                            channel_samples(samples@, n_channels as nat, k, (f + 1) as nat),
                        ),
                    forall|k: int|
                        c <= k < n_channels ==> (#[trigger] self.window_per_channel@[k])@ == fed(
                            start[k],
                            channel_samples(samples@, n_channels as nat, k, f as nat),
                        ),
                    forall|i: int|
                        0 <= i < idx ==> #[trigger] self.interleaved_rms@[i] == level_at(
                            start,
                            samples@,
                            n_channels as nat,
                            i,
                        ),
            {
                proof {
                    lemma_index_in_frame(f as int, c as int, n_frames as int, n_channels as int);
                    lemma_channel_samples_step(samples@, n_channels as nat, c as int, f as nat);
                    lemma_fed_push(
                        start[c as int],
                        channel_samples(samples@, n_channels as nat, c as int, f as nat),
                        samples@[idx as int] as int,
                    );
                }
                let rms = self.window_per_channel[c].next_rms(samples[idx]);
                self.interleaved_rms[idx] = rms;
                idx += 1;
            }
            assert(f * n_channels + n_channels == (f + 1) * n_channels) by (nonlinear_arith);
        }
        proof {
            assert(self@.windows =~= updated(old(self)@, samples@, settings).windows);
            assert(self@.interleaved_rms =~= updated(
                old(self)@,
                samples@,
                settings,
            ).interleaved_rms);
            if n_channels > 0 {
                lemma_whole_frames(n_frames as int, n_channels as int);
            }
        }
        Ok(())
    }

    /// Whether the levels hold a frame `frame_idx`. `avg` and `per_channel` take no other
    /// index; `try_avg` and `try_per_channel` take any and say so where there is no frame.
    pub fn has_frame(&self, frame_idx: usize) -> (held: bool)
        ensures
            held == (frame_idx < self@.n_frames()),
    {
        let n_channels = self.window_per_channel.len();
        n_channels > 0 && frame_idx < self.interleaved_rms.len() / n_channels
    }

    /// The level of each channel at the frame `frame_idx`, or nothing where the levels hold
    /// no such frame: an index out of bounds is never served with another frame, a part of
    /// one or an empty one.
    pub fn try_per_channel(&self, frame_idx: usize) -> (frame_slice: Option<&[Level]>)
        ensures
            frame_slice.is_some() <==> frame_idx < self@.n_frames(),
            match frame_slice {
                Some(frame_slice) => {
                    &&& levels(frame_slice@) == self@.frame(frame_idx as int)
                    &&& frame_slice@.len() == self@.n_channels()
                    &&& frame_slice@.len() > 0
                },
                None => frame_idx >= self@.n_frames(),
            },
    {
        if self.has_frame(frame_idx) {
            Some(self.per_channel(frame_idx))
        } else {
            None
        }
    }

    /// The mean, rounded down, of the levels of all channels at the frame `frame_idx`, or
    /// nothing where the levels hold no such frame.
    pub fn try_avg(&self, frame_idx: usize) -> (avg_rms: Option<Level>)
        ensures
            avg_rms.is_some() <==> frame_idx < self@.n_frames(),
            match avg_rms {
                Some(avg_rms) => avg_rms == mean_of(self@.frame(frame_idx as int)),
                None => frame_idx >= self@.n_frames(),
            },
    {
        if self.has_frame(frame_idx) {
            Some(self.avg(frame_idx))
        } else {
            None
        }
    }

    /// The mean, rounded down, of the levels of all channels at the frame `frame_idx`.
    pub fn avg(&self, frame_idx: usize) -> (avg_rms: Level)
        requires
            frame_idx < self@.n_frames(),
        ensures
            avg_rms == mean_of(self@.frame(frame_idx as int)),
    {
        let frame_slice = self.per_channel(frame_idx);
        let n_channels = frame_slice.len();
        let ghost frame = levels(frame_slice@);
        let mut total_rms: u128 = 0;
        for c in 0..n_channels
            invariant
                n_channels == frame_slice@.len(),
                frame == levels(frame_slice@),
                total_rms == sum_of(frame.take(c as int)),
                total_rms <= c * u32::MAX,
        {
            proof {
                assert(frame.take(c + 1).drop_last() =~= frame.take(c as int));
                assert(c * u32::MAX + u32::MAX <= u128::MAX) by (nonlinear_arith)
                    requires
                        c <= usize::MAX,
                ;
            }
            total_rms = total_rms + frame_slice[c] as u128;
        }
        proof {
            assert(frame.take(n_channels as int) =~= frame);
            let total = total_rms as int;
            let n = n_channels as int;
            assert(0 <= total / n <= u32::MAX) by (nonlinear_arith)
                requires
                    0 <= total <= n * u32::MAX,
                    n > 0,
            ;
        }
        (total_rms / n_channels as u128) as u32
    }

    /// The level of each channel at the frame `frame_idx`.
    pub fn per_channel(&self, frame_idx: usize) -> (frame_slice: &[Level])
        requires
            frame_idx < self@.n_frames(),
        ensures
            levels(frame_slice@) == self@.frame(frame_idx as int),
            frame_slice@.len() == self@.n_channels(),
    {
        let n_channels = self.window_per_channel.len();
        proof {
            lemma_frame_in_levels(
                frame_idx as int,
                n_channels as int,
                self.interleaved_rms.len() as int,
            );
        }
        let slice_idx = frame_idx * n_channels;
        let end_idx = slice_idx + n_channels;
        &self.interleaved_rms[slice_idx..end_idx]
    }

    /// The index of the last frame of levels: none where there is no channel or no level.
    pub fn last_frame(&self) -> (last: Option<usize>)
        requires
            self.wf(),
        ensures
            match last {
                Some(last_frame) => {
                    &&& self@.n_channels() > 0
                    &&& self@.interleaved_rms.len() > 0
                    &&& last_frame == self@.n_frames() - 1
                },
                None => self@.n_channels() == 0 || self@.interleaved_rms.len() == 0,
            },
    {
        let n_channels = self.window_per_channel.len();
        let n_samples = self.interleaved_rms.len();
        if n_channels == 0 || n_samples == 0 {
            return None;
        }
        let n_frames = n_samples / n_channels;
        assert(n_frames >= 1) by (nonlinear_arith)
            requires
                n_samples == n_frames * n_channels,
                n_samples > 0,
        ;
        Some(n_frames - 1)
    }

    /// The mean, rounded down, of the levels of all channels at the last frame; 0 where
    /// there is no frame.
    pub fn avg_at_last_frame(&self) -> (avg_rms: Level)
        requires
            self.wf(),
        ensures
            avg_rms == if self@.n_frames() == 0 {
                0
            } else {
                mean_of(self@.frame(self@.n_frames() - 1))
            },
    {
        match self.last_frame() {
            Some(last_frame) => self.avg(last_frame),
            None => 0,
        }
    }

    /// The level of each channel at the last frame; nothing where there is no frame.
    pub fn per_channel_at_last_frame(&self) -> (frame_slice: &[Level])
        requires
            self.wf(),
        ensures
            levels(frame_slice@) == if self@.n_frames() == 0 {
                Seq::empty()
            } else {
                self@.frame(self@.n_frames() - 1)
            },
    {
        match self.last_frame() {
            Some(last_frame) => self.per_channel(last_frame),
            None => &[],
        }
    }

    /// The level after each sample of the last buffer, interleaved as the buffer was.
    pub fn interleaved_rms(&self) -> (all: &[Level])
        ensures
            levels(all@) == self@.interleaved_rms,
    {
        self.interleaved_rms.as_slice()
    }

    /// The length of the windows, as the engine was made with it.
    pub fn window(&self) -> (window: WindowSize)
        ensures
            window == self@.window,
    {
        self.window
    }

    /// The duration of the window in whole milliseconds, where the engine was made with
    /// one: a duration in microseconds is given where it is a whole number of milliseconds.
    pub fn window_ms(&self) -> (ms: Option<u64>)
        ensures
            ms == match self@.window {
                WindowSize::Millis(ms) => Some(ms),
                WindowSize::Micros(us) => if us % 1000 == 0 {
                    Some((us / 1000) as u64)
                } else {
                    None
                },
                WindowSize::Samples(_) => None,
            },
    {
        match self.window {
            WindowSize::Millis(ms) => Some(ms),
            WindowSize::Micros(us) => if us % 1000 == 0 {
                Some(us / 1000)
            } else {
                None
            },
            WindowSize::Samples(_) => None,
        }
    }

    /// Sets every slot of every window to zero. Lengths and levels stay.
    pub fn reset_windows(&mut self)
        requires
            old(self).wf(),
        ensures
            final(self).wf(),
            final(self)@.window == old(self)@.window,
            final(self)@.interleaved_rms == old(self)@.interleaved_rms,
            final(self)@.windows.len() == old(self)@.windows.len(),
            forall|c: int|
                0 <= c < old(self)@.windows.len() ==> #[trigger] final(self)@.windows[c]
                    == silence(old(self)@.windows[c].len()),
    {
        let n_channels = self.window_per_channel.len();
        for c in 0..n_channels
            invariant
                n_channels == self.window_per_channel@.len(),
                self.window == old(self).window,
                self.interleaved_rms == old(self).interleaved_rms,
                forall|k: int| 0 <= k < c ==> (#[trigger] self.window_per_channel@[k]).wf(),
                forall|k: int|
                    0 <= k < c ==> (#[trigger] self.window_per_channel@[k])@ == silence(
                        old(self).window_per_channel@[k]@.len(),
                    ),
                forall|k: int|
                    c <= k < n_channels ==> #[trigger] self.window_per_channel@[k] == old(
                        self,
                    ).window_per_channel@[k],
        {
            self.window_per_channel[c].reset();
        }
    }
}

} // verus!
