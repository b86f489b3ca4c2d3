use vstd::prelude::*;

verus! {

/// Frames per second under which automatic scaling lowers the quality.
pub const LOW_FPS_THRESHOLD: u32 = 20;

/// Frames per second over which automatic scaling raises the quality.
pub const HIGH_FPS_THRESHOLD: u32 = 45;

/// The most frame rates kept for the automatic scaling's average.
pub const FPS_HISTORY_LEN: usize = 10;

/// The fewest frame rates the automatic scaling averages over.
pub const MIN_FPS_SAMPLES: usize = 5;

/// The factor by which a quality level scales the image down: Low (0) renders
/// one pixel in 4 by 4, Medium (1) one in 2 by 2, High (2 and above) every
/// pixel.
pub open spec fn spec_render_scale(quality_level: i32) -> i32 {
    if quality_level == 0 {
        4
    } else if quality_level == 1 {
        2
    } else {
        1
    }
}

pub fn render_scale(quality_level: i32) -> (s: i32)
    ensures
        s == spec_render_scale(quality_level),
{
    match quality_level {
        0 => 4,
        1 => 2,
        _ => 1,
    }
}

/// The name shown for a quality level.
pub fn quality_label(quality_level: i32) -> (s: &'static str)
    ensures
        quality_level == 0 ==> s@ == "Low (4x)"@,
        quality_level == 1 ==> s@ == "Medium (2x)"@,
        quality_level != 0 && quality_level != 1 ==> s@ == "High (1x)"@,
{
    match quality_level {
        0 => "Low (4x)",
        1 => "Medium (2x)",
        _ => "High (1x)",
    }
}

/// How the frame-rate readout is coloured.
#[derive(Clone, Copy, Debug, PartialEq, Eq, Structural)]
pub enum FpsRating {
    /// 50 frames per second or more.
    Good,
    /// 25 to 49.
    Fair,
    /// Under 25.
    Poor,
}

pub fn fps_rating(fps: u32) -> (r: FpsRating)
    ensures
        r == (if fps >= 50 {
            FpsRating::Good
        } else if fps >= 25 {
            FpsRating::Fair
        } else {
            FpsRating::Poor
        }),
{
    if fps >= 50 {
        FpsRating::Good
    } else if fps >= 25 {
        FpsRating::Fair
    } else {
        FpsRating::Poor
    }
}

/// The sum of recorded frame rates.
pub open spec fn fps_sum(h: Seq<u32>) -> int
    decreases h.len(),
{
    if h.len() == 0 {
        0
    } else {
        fps_sum(h.drop_last()) + h.last()
    }
}

/// The frame-rate history after a new frame rate is recorded: the newest
/// rates, at most `FPS_HISTORY_LEN` of them.
pub open spec fn recorded(h: Seq<u32>, fps: u32) -> Seq<u32> {
    if h.len() + 1 > 10 {
        h.push(fps).drop_first()
    } else {
        h.push(fps)
    }
}

/// What an automatic quality check did.
#[derive(Clone, Copy, Debug, PartialEq, Eq, Structural)]
pub enum QualityChange {
    /// The quality was lowered; the average frame rate.
    Lowered(u32),
    /// The quality was raised; the average frame rate.
    Raised(u32),
    /// The quality was kept; the average frame rate.
    Kept(u32),
}

/// The render settings that the keyboard and the automatic performance
/// scaling control.
pub struct RenderControls {
    /// 0 (Low), 1 (Medium) or 2 (High).
    pub quality_level: i32,
    /// The quality the user chose last.
    pub manual_quality_level: i32,
    pub use_threading: bool,
    pub auto_quality: bool,
    /// The frame rates recorded while automatic scaling is on, oldest first.
    pub fps_history: Vec<u32>,
}

impl RenderControls {
    /// Both quality levels are Low, Medium or High, at most ten frame rates
    /// are kept, and without automatic scaling the quality is the user's.
    pub open spec fn inv(&self) -> bool {
        &&& 0 <= self.quality_level <= 2
        &&& 0 <= self.manual_quality_level <= 2
        &&& self.fps_history@.len() <= 10
        &&& !self.auto_quality ==> self.quality_level == self.manual_quality_level
    }

    /// Medium quality, threading on, automatic scaling off.
    pub fn new() -> (c: RenderControls)
        ensures
            c.inv(),
            c.quality_level == 1,
            c.manual_quality_level == 1,
            c.use_threading,
            !c.auto_quality,
            c.fps_history@ == Seq::<u32>::empty(),
    {
        RenderControls {
            quality_level: 1,
            manual_quality_level: 1,
            use_threading: true,
            auto_quality: false,
            fps_history: Vec::new(),
        }
    }

    /// Applies the keys pressed this frame: 1, 2 and 3 choose Low, Medium and
    /// High (taking effect at once unless automatic scaling is on), P turns
    /// automatic scaling on or off (restoring the chosen quality when off),
    /// T turns threading on or off.
    pub fn apply_keys(
        &mut self,
        key_one: bool,
        key_two: bool,
        key_three: bool,
        key_auto: bool,
        key_threading: bool,
    )
        requires
            old(self).inv(),
        ensures
            final(self).inv(),
            final(self).manual_quality_level == (if key_three {
                2
            } else if key_two {
                1
            } else if key_one {
                0
            } else {
                old(self).manual_quality_level
            }),
            final(self).auto_quality == (old(self).auto_quality != key_auto),
            final(self).quality_level == (if old(self).auto_quality
                && final(self).auto_quality {
                old(self).quality_level
            } else {
                final(self).manual_quality_level
            }),
            final(self).use_threading == (old(self).use_threading != key_threading),
            final(self).fps_history@ == old(self).fps_history@,
    {
        if key_one {
            self.manual_quality_level = 0;
            if !self.auto_quality {
                self.quality_level = 0;
            }
        }
        if key_two {
            self.manual_quality_level = 1;
            if !self.auto_quality {
                self.quality_level = 1;
            }
        }
        if key_three {
            self.manual_quality_level = 2;
            if !self.auto_quality {
                self.quality_level = 2;
            }
        }
        if key_auto {
            self.auto_quality = !self.auto_quality;
            if !self.auto_quality {
                self.quality_level = self.manual_quality_level;
            }
        }
        if key_threading {
            self.use_threading = !self.use_threading;
        }
    }

    /// Records this frame's frame rate, keeping the newest ten.
    pub fn record_fps(&mut self, fps: u32)
        requires
            old(self).inv(),
        ensures
            final(self).inv(),
            final(self).fps_history@ == recorded(old(self).fps_history@, fps),
            final(self).quality_level == old(self).quality_level,
            final(self).manual_quality_level == old(self).manual_quality_level,
            final(self).auto_quality == old(self).auto_quality,
            final(self).use_threading == old(self).use_threading,
    {
        self.fps_history.push(fps);
        if self.fps_history.len() > FPS_HISTORY_LEN {
            self.fps_history.remove(0);
        }
    }

    /// The automatic quality check, made while automatic scaling is on, when the check interval has
    /// elapsed and at least five frame rates are recorded: with an average
    /// under 20 frames per second the quality drops one level (down to Low);
    /// with an average over 45 it rises one level, but never above the
    /// quality the user chose. Returns `None` when no check was due.
    pub fn adjust(&mut self, interval_elapsed: bool) -> (change: Option<QualityChange>)
        requires
            old(self).inv(),
            old(self).auto_quality,
            interval_elapsed && old(self).fps_history@.len() >= 5 ==> fps_sum(
                old(self).fps_history@,
            ) <= u32::MAX,
        ensures
            final(self).inv(),
            final(self).fps_history@ == old(self).fps_history@,
            final(self).manual_quality_level == old(self).manual_quality_level,
            final(self).auto_quality == old(self).auto_quality,
            final(self).use_threading == old(self).use_threading,
            !(interval_elapsed && old(self).fps_history@.len() >= 5) ==> change is None
                && final(self).quality_level == old(self).quality_level,
            interval_elapsed && old(self).fps_history@.len() >= 5 ==> {
                let avg = fps_sum(old(self).fps_history@) / old(self).fps_history@.len() as int;
                let q = old(self).quality_level;
                if avg < 20 && q > 0 {
                    change == Some(QualityChange::Lowered(avg as u32)) && final(self).quality_level
                        == q - 1
                } else if avg > 45 && q < 2 && q < old(self).manual_quality_level {
                    change == Some(QualityChange::Raised(avg as u32)) && final(self).quality_level
                        == q + 1
                } else {
                    change == Some(QualityChange::Kept(avg as u32)) && final(self).quality_level
                        == q
                }
            },
    {
        let n = self.fps_history.len();
        if !(interval_elapsed && n >= MIN_FPS_SAMPLES) {
            return None;
        }
        let mut sum: u32 = 0;
        let mut i: usize = 0;
        while i < n
            invariant
                n == self.fps_history@.len(),
                i <= n,
                sum as int == fps_sum(self.fps_history@.take(i as int)),
                fps_sum(self.fps_history@) <= u32::MAX,
            decreases n - i,
        {
            proof {
                assert(self.fps_history@.take(i + 1).drop_last() =~= self.fps_history@.take(
                    i as int,
                ));
                lemma_fps_sum_prefix(self.fps_history@, i as int + 1);
            }
            sum = sum + self.fps_history[i];
            i = i + 1;
        }
        assert(self.fps_history@.take(n as int) =~= self.fps_history@);
        let avg = sum / (n as u32);
        if avg < LOW_FPS_THRESHOLD && self.quality_level > 0 {
            self.quality_level = self.quality_level - 1;
            Some(QualityChange::Lowered(avg))
        } else if avg > HIGH_FPS_THRESHOLD && self.quality_level < 2 && self.quality_level
            < self.manual_quality_level {
            self.quality_level = self.quality_level + 1;
            Some(QualityChange::Raised(avg))
        } else {
            Some(QualityChange::Kept(avg))
        }
    }
}

/// Recording a frame rate keeps the newest ones, in order: the history
/// becomes the last `min(|h| + 1, 10)` rates of `h` followed by `fps`, so
/// its last rate is `fps` and, once full, the oldest rate is the one dropped.
pub proof fn lemma_recorded_keeps_newest(h: Seq<u32>, fps: u32)
    requires
        h.len() <= 10,
    ensures
        ({
            let n: int = h.len() as int + 1;
            let start = if n > 10 {
                n - 10
            } else {
                0
            };
            &&& recorded(h, fps).len() == n - start
            &&& recorded(h, fps) == h.push(fps).subrange(start, n)
            &&& recorded(h, fps)[recorded(h, fps).len() - 1] == fps
        }),
{
    let n: int = h.len() as int + 1;
    let start: int = if n > 10 {
        n - 10
    } else {
        0
    };
    assert(recorded(h, fps) =~= h.push(fps).subrange(start, n));
}

/// The sum of the recorded rates lies between their count times a lower
/// bound and their count times an upper bound of each rate; in particular
/// the average of equal rates is that rate.
pub proof fn lemma_fps_sum_bounds(h: Seq<u32>, lo: int, hi: int)
    requires
        forall|i: int| 0 <= i < h.len() ==> lo <= #[trigger] h[i] <= hi,
    ensures
        h.len() * lo <= fps_sum(h) <= h.len() * hi,
    decreases h.len(),
{
    if h.len() > 0 {
        let t = h.drop_last();
        assert forall|i: int| 0 <= i < t.len() implies lo <= #[trigger] t[i] <= hi by {
            assert(t[i] == h[i]);
        }
        lemma_fps_sum_bounds(t, lo, hi);
        assert(lo <= h[h.len() - 1] <= hi);
        vstd::arithmetic::mul::lemma_mul_is_distributive_add_other_way(lo, t.len() as int, 1);
        vstd::arithmetic::mul::lemma_mul_is_distributive_add_other_way(hi, t.len() as int, 1);
        vstd::arithmetic::mul::lemma_mul_is_commutative(lo, t.len() as int);
        vstd::arithmetic::mul::lemma_mul_is_commutative(hi, t.len() as int);
        vstd::arithmetic::mul::lemma_mul_is_commutative(lo, h.len() as int);
        vstd::arithmetic::mul::lemma_mul_is_commutative(hi, h.len() as int);
    } else {
        vstd::arithmetic::mul::lemma_mul_basics(lo);
        vstd::arithmetic::mul::lemma_mul_basics(hi);
    }
}

/// The sum of the rates of two histories put end to end is the sum of their
/// sums, and a single rate sums to itself.
pub proof fn lemma_fps_sum_concat(a: Seq<u32>, b: Seq<u32>)
    ensures
        fps_sum(a + b) == fps_sum(a) + fps_sum(b),
        forall|x: u32| #[trigger] fps_sum(seq![x]) == x,
    decreases b.len(),
{
    assert forall|x: u32| #[trigger] fps_sum(seq![x]) == x by {
        assert(seq![x].drop_last() =~= Seq::<u32>::empty());
        assert(fps_sum(Seq::<u32>::empty()) == 0);
        assert(seq![x].last() == x);
    }
    if b.len() == 0 {
        assert(a + b =~= a);
    } else {
        lemma_fps_sum_concat(a, b.drop_last());
        assert((a + b).drop_last() =~= a + b.drop_last());
    }
}

/// A prefix of the history sums to no more than the whole history.
proof fn lemma_fps_sum_prefix(h: Seq<u32>, k: int)
    requires
        0 <= k <= h.len(),
    ensures
        fps_sum(h.take(k)) <= fps_sum(h),
    decreases h.len() - k,
{
    if k < h.len() {
        lemma_fps_sum_prefix(h, k + 1);
        assert(h.take(k + 1).drop_last() =~= h.take(k));
    } else {
        assert(h.take(k) =~= h);
    }
}

} // verus!
