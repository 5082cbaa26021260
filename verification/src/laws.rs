//! What holds of windows and of the engine whatever they are fed.

use crate::engine::{
    channel_samples, lemma_index_in_frame, prepared, reconciled, refilled, updated, RmsView,
};
use crate::math::{
    floor_sqrt, is_floor_sqrt, lemma_floor_sqrt, lemma_floor_sqrt_of_square, lemma_sum_concat,
    lemma_sum_constant, lemma_sum_nonnegative, lemma_sum_push, mean_of, sum_of,
};
use crate::settings::{Settings, Wave};
use crate::window::{fed, lemma_padding_keeps_mean, pushed, resized, rms_of, squares};
use vstd::prelude::*;

verus! {

/// The level of a window whose slots are natural numbers is the integer square root of
/// their mean: the largest whole number whose square is no more than the mean.
pub proof fn lemma_level_is_floor_sqrt(s: Seq<int>)
    requires
        forall|i: int| 0 <= i < s.len() ==> 0 <= #[trigger] s[i],
    ensures
        0 <= mean_of(s),
        is_floor_sqrt(rms_of(s), mean_of(s)),
{
    if s.len() > 0 {
        lemma_sum_nonnegative(s);
        let total = sum_of(s);
        let n = s.len() as int;
        assert(0 <= total / n) by (nonlinear_arith)
            requires
                0 <= total,
                n > 0,
        ;
    }
    lemma_floor_sqrt(mean_of(s));
}

/// A window keeps its length whatever enters.
pub proof fn lemma_fed_len(s: Seq<int>, xs: Seq<int>)
    ensures
        fed(s, xs).len() == s.len(),
    decreases xs.len(),
{
    if xs.len() > 0 {
        lemma_fed_len(s, xs.drop_last());
    }
}

/// A window slides: after the samples `xs` it holds the newest slots of what it held
/// followed by the squares of `xs`, as many as it is long.
pub proof fn lemma_fed_slides(s: Seq<int>, xs: Seq<int>)
    ensures
        fed(s, xs) == (s + squares(xs)).subrange(xs.len() as int, (xs.len() + s.len()) as int),
    decreases xs.len(),
{
    if xs.len() > 0 {
        let init = xs.drop_last();
        lemma_fed_slides(s, init);
        lemma_fed_len(s, init);
        let n = s.len() as int;
        let m = init.len() as int;
        let held = (s + squares(init)).subrange(m, m + n);
        // One more sample moves the window on by one slot.
        assert(pushed(held, xs.last()) =~= (s + squares(xs)).subrange(m + 1, m + 1 + n));
    }
}

/// Once as many samples have entered as a window is long, it holds the squares of the
/// newest of them and nothing of what it held before.
pub proof fn lemma_fed_forgets(s: Seq<int>, xs: Seq<int>)
    requires
        xs.len() >= s.len(),
    ensures
        fed(s, xs) == squares(xs).subrange(xs.len() - s.len(), xs.len() as int),
{
    lemma_fed_slides(s, xs);
}

/// Two windows of one length that have let in the same samples, at least as many as they
/// are long, hold the same.
pub proof fn lemma_same_input_same_window(s1: Seq<int>, s2: Seq<int>, xs: Seq<int>)
    requires
        s1.len() == s2.len(),
        xs.len() >= s1.len(),
    ensures
        fed(s1, xs) == fed(s2, xs),
{
    lemma_fed_forgets(s1, xs);
    lemma_fed_forgets(s2, xs);
}

/// A sample of one value `c`, sustained for at least as long as the window is, brings the
/// level to the absolute value of `c`.
pub proof fn lemma_constant_input_converges(s: Seq<int>, c: int, m: nat)
    requires
        0 < s.len() <= m,
    ensures
        fed(s, Seq::new(m, |i: int| c)) == Seq::new(s.len(), |i: int| c * c),
        rms_of(fed(s, Seq::new(m, |i: int| c))) == if c >= 0 {
            c
        } else {
            -c
        },
{
    let xs = Seq::new(m, |i: int| c);
    let n = s.len();
    lemma_fed_forgets(s, xs);
    lemma_sum_constant(n, c * c);
    assert((n * (c * c)) / (n as int) == c * c) by (nonlinear_arith)
        requires
            n > 0,
    ;
    lemma_floor_sqrt_of_square(c);
}

/// The samples of an impulse: `before` zeros, the sample `c`, `after` zeros.
pub open spec fn impulse(before: nat, c: int, after: nat) -> Seq<int> {
    Seq::new(before + 1 + after, |i: int| if i == before { c } else { 0 })
}

/// A single sample `c` amid zeros: while it is in the window the level is the square root
/// of `c * c / n`, rounded down, where `n` is the length of the window; once as many zeros
/// have followed as the window is long, the level is 0.
pub proof fn lemma_impulse_decays(s: Seq<int>, c: int, before: nat, after: nat)
    requires
        0 < s.len() <= before + 1,
    ensures
        rms_of(fed(s, impulse(before, c, after))) == if after < s.len() {
            floor_sqrt((c * c) / (s.len() as int))
        } else {
            0
        },
{
    let n = s.len();
    let xs = impulse(before, c, after);
    lemma_fed_forgets(s, xs);
    let held = fed(s, xs);
    if after < n {
        // The window holds zeros, the square of `c`, and `after` zeros.
        let lead = (n - 1 - after) as nat;
        let head = Seq::new(lead, |i: int| 0int).push(c * c);
        let tail = Seq::new(after, |i: int| 0int);
        assert(held =~= head + tail);
        lemma_sum_concat(head, tail);
        lemma_sum_push(Seq::new(lead, |i: int| 0int), c * c);
        lemma_sum_constant(lead, 0);
        lemma_sum_constant(after, 0);
        assert(sum_of(held) == c * c);
    } else {
        // The window holds zeros only.
        assert(held =~= Seq::new(n, |i: int| 0int));
        lemma_sum_constant(n, 0);
        assert(sum_of(held) == 0);
        lemma_floor_sqrt_of_square(0);
    }
}

/// Resizing a window to the length it has changes nothing.
pub proof fn lemma_resize_to_same_length(s: Seq<int>)
    ensures
        resized(s, s.len()) == s,
{
}

/// Growing a window leaves its mean square, and so its level, as it was.
pub proof fn lemma_grow_keeps_level(s: Seq<int>, n: nat)
    requires
        0 < s.len() <= n,
    ensures
        mean_of(resized(s, n)) == mean_of(s),
        rms_of(resized(s, n)) == rms_of(s),
    decreases n,
{
    if n == s.len() {
        lemma_resize_to_same_length(s);
    } else {
        let shorter = resized(s, (n - 1) as nat);
        lemma_grow_keeps_level(s, (n - 1) as nat);
        if n - 1 == s.len() {
            lemma_resize_to_same_length(s);
        }
        assert(resized(s, n) =~= seq![mean_of(shorter)] + shorter);
        lemma_padding_keeps_mean(shorter);
    }
}

/// Growing a window by `k` slots and then shrinking it by `k` gives back the window as it
/// was: what growing put in is what shrinking takes out.
pub proof fn lemma_grow_then_shrink(s: Seq<int>, k: nat)
    ensures
        resized(resized(s, s.len() + k), s.len()) == s,
{
}

/// A window that was grown by `k` slots, fed, and shrunk by `k` again gives the levels of
/// a window that was never resized once as many samples have entered since as it is long.
pub proof fn lemma_round_trip_is_forgotten(s: Seq<int>, k: nat, mid: Seq<int>, xs: Seq<int>)
    requires
        xs.len() >= s.len(),
    ensures
        fed(resized(fed(resized(s, s.len() + k), mid), s.len()), xs) == fed(fed(s, mid), xs),
{
    lemma_fed_len(s, mid);
    lemma_same_input_same_window(
        resized(fed(resized(s, s.len() + k), mid), s.len()),
        fed(s, mid),
        xs,
    );
}

/// After an update, the level of frame `f` and channel `c` is that of the channel's window
/// right after the channel's sample of frame `f` has entered it, and it lies at
/// `f * channels + c`.
pub proof fn lemma_level_of_frame_and_channel(
    before: RmsView,
    samples: Seq<Wave>,
    settings: Settings,
    f: int,
    c: int,
)
    requires
        0 <= f < settings.frames,
        0 <= c < settings.channels,
    ensures
        ({
            let after = updated(before, samples, settings);
            let n_channels = settings.channels as nat;
            let start = reconciled(
                before.windows,
                n_channels,
                before.window.spec_samples(settings.sample_hz) as nat,
            );
            &&& 0 <= f * n_channels + c < after.interleaved_rms.len()
            &&& after.interleaved_rms[f * n_channels + c] == rms_of(
                fed(start[c], channel_samples(samples, n_channels, c, (f + 1) as nat)),
            )
            &&& after.frame(f)[c] == after.interleaved_rms[f * n_channels + c]
        }),
{
    let n_channels = settings.channels as int;
    lemma_index_in_frame(f, c, settings.frames as int, n_channels);
    lemma_index_in_frame(f, n_channels - 1, settings.frames as int, n_channels);
}

/// A frame index is in bounds exactly where the whole frame lies inside the levels: the
/// frame of an index out of bounds would reach beyond them.
pub proof fn lemma_frame_in_bounds(view: RmsView, f: int)
    requires
        0 <= f,
        view.n_channels() > 0,
    ensures
        f < view.n_frames() <==> f * view.n_channels() + view.n_channels()
            <= view.interleaved_rms.len(),
{
    let n_channels = view.n_channels() as int;
    let n_levels = view.interleaved_rms.len() as int;
    let n_frames = n_levels / n_channels;
    vstd::arithmetic::div_mod::lemma_fundamental_div_mod(n_levels, n_channels);
    assert(n_levels == n_channels * n_frames + n_levels % n_channels);
    if f < n_frames {
        assert(f * n_channels + n_channels <= n_channels * n_frames) by (nonlinear_arith)
            requires
                0 <= f < n_frames,
                0 < n_channels,
        ;
    } else {
        assert(f * n_channels + n_channels >= n_channels * n_frames + n_channels)
            by (nonlinear_arith)
            requires
                f >= n_frames,
                0 < n_channels,
        ;
    }
}

/// Filling the levels up twice to one number is filling them up once.
pub proof fn lemma_refill_is_idempotent(levels: Seq<int>, n: nat)
    ensures
        refilled(refilled(levels, n), n) == refilled(levels, n),
{
}

/// Reconciling twice with one format is reconciling once.
pub proof fn lemma_reconcile_is_idempotent(
    windows: Seq<Seq<int>>,
    n_channels: nat,
    n_window_samples: nat,
)
    ensures
        reconciled(reconciled(windows, n_channels, n_window_samples), n_channels, n_window_samples)
            == reconciled(windows, n_channels, n_window_samples),
{
    let once = reconciled(windows, n_channels, n_window_samples);
    let twice = reconciled(once, n_channels, n_window_samples);
    assert(twice =~= once) by {
        assert forall|c: int| 0 <= c < n_channels implies twice[c] == once[c] by {
            lemma_resize_to_same_length(once[c]);
        }
    }
}

/// An update of an engine that was prepared for its format gives what it gives of the
/// engine as it was before: preparing changes no level that is yet to come.
pub proof fn lemma_update_after_preparing(before: RmsView, samples: Seq<Wave>, settings: Settings)
    ensures
        updated(prepared(before, settings), samples, settings) == updated(
            before,
            samples,
            settings,
        ),
{
    lemma_reconcile_is_idempotent(
        before.windows,
        settings.channels as nat,
        before.window.spec_samples(settings.sample_hz) as nat,
    );
}

/// A second update with the format of the first finds nothing to reconcile: the windows
/// stay as many and as long as they are, and the levels as many.
pub proof fn lemma_update_keeps_shape(
    before: RmsView,
    first: Seq<Wave>,
    second: Seq<Wave>,
    settings: Settings,
)
    ensures
        ({
            let once = updated(before, first, settings);
            let twice = updated(once, second, settings);
            &&& reconciled(
                once.windows,
                settings.channels as nat,
                once.window.spec_samples(settings.sample_hz) as nat,
            ) == once.windows
            &&& twice.windows.len() == once.windows.len()
            &&& forall|c: int|
                0 <= c < once.windows.len() ==> #[trigger] twice.windows[c].len()
                    == once.windows[c].len()
            &&& twice.interleaved_rms.len() == once.interleaved_rms.len()
        }),
{
    let once = updated(before, first, settings);
    let twice = updated(once, second, settings);
    let n_channels = settings.channels as nat;
    let n_frames = settings.frames as nat;
    let n_window_samples = before.window.spec_samples(settings.sample_hz) as nat;
    let start = reconciled(before.windows, n_channels, n_window_samples);
    let again = reconciled(once.windows, n_channels, n_window_samples);
    assert forall|c: int| 0 <= c < n_channels implies #[trigger] once.windows[c].len()
        == n_window_samples by {
        lemma_fed_len(start[c], channel_samples(first, n_channels, c, n_frames));
    }
    assert(again =~= once.windows) by {
        assert forall|c: int| 0 <= c < n_channels implies again[c] == once.windows[c] by {
            lemma_resize_to_same_length(once.windows[c]);
        }
    }
    assert forall|c: int| 0 <= c < once.windows.len() implies #[trigger] twice.windows[c].len()
        == once.windows[c].len() by {
        lemma_fed_len(again[c], channel_samples(second, n_channels, c, n_frames));
    }
}

} // verus!
