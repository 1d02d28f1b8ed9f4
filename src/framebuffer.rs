//! Reduction of sample passes into the final framebuffer: per-pixel sums, their mean,
//! and quantisation to 8-bit RGBA.
use crate::rgb::{rgb3, Rgb};
use crate::scalar::{one, Scalar, ONE_RAW};
use crate::shade::displayable;
use vstd::arithmetic::div_mod::{lemma_div_is_ordered, lemma_div_multiples_vanish, lemma_div_pos_is_pos};
use vstd::prelude::*;

verus! {

/// The most sample passes an `Accumulator` takes: with every channel at most 255, the
/// sums of this many passes still fit.
pub const MAX_FRAMES: u32 = 4194304;

/// A channel of a colour: 0 red, 1 green, otherwise blue (raw values).
pub open spec fn channel(c: Rgb, ch: int) -> int {
    if ch == 0 {
        c.r.val()
    } else if ch == 1 {
        c.g.val()
    } else {
        c.b.val()
    }
}

/// The sum over all frames of one channel of pixel `i`.
pub open spec fn frame_sum(frames: Seq<Seq<Rgb>>, i: int, ch: int) -> int
    decreases frames.len(),
{
    if frames.len() == 0 {
        0
    } else {
        frame_sum(frames.drop_last(), i, ch) + channel(frames.last()[i], ch)
    }
}

/// The arithmetic mean of pixel `i` over all frames, each channel rounded down.
pub open spec fn mean_pixel(frames: Seq<Seq<Rgb>>, i: int) -> Rgb {
    let n = frames.len() as int;
    rgb3(frame_sum(frames, i, 0) / n, frame_sum(frames, i, 1) / n, frame_sum(frames, i, 2) / n)
}

/// Every frame has `pixels` pixels, each in the display range.
pub open spec fn frames_ok(frames: Seq<Seq<Rgb>>, pixels: int) -> bool {
    forall|k: int|
        0 <= k < frames.len() ==> (#[trigger] frames[k]).len() == pixels && (forall|i: int|
            0 <= i < pixels ==> displayable(#[trigger] frames[k][i]))
}

/// A frame of `pixels` pixels, each in the display range.
pub open spec fn frame_ok(frame: Seq<Rgb>, pixels: int) -> bool {
    frame.len() == pixels && forall|i: int| 0 <= i < pixels ==> displayable(#[trigger] frame[i])
}

/// A channel value clamped to `[0, 255]` and rounded down to a byte.
pub open spec fn quantize(v: int) -> int {
    if v < 0 {
        0
    } else if v / one() > 255 {
        255
    } else {
        v / one()
    }
}

pub proof fn lemma_frame_sum_bound(frames: Seq<Seq<Rgb>>, pixels: int, i: int, ch: int)
    requires
        frames_ok(frames, pixels),
        0 <= i < pixels,
    ensures
        0 <= frame_sum(frames, i, ch) <= frames.len() * (255 * one()),
    decreases frames.len(),
{
    if frames.len() > 0 {
        let init = frames.drop_last();
        assert forall|k: int| 0 <= k < init.len() implies #[trigger] init[k] == frames[k] by {}
        lemma_frame_sum_bound(init, pixels, i, ch);
        assert(displayable(frames[frames.len() - 1][i]));
        assert(frames.len() * (255 * one()) == init.len() * (255 * one()) + 255 * one()) by (
        nonlinear_arith)
            requires
                init.len() + 1 == frames.len(),
        ;
    }
}

/// A mean of sums that stay in the display range stays in it.
proof fn lemma_mean_displayable(frames: Seq<Seq<Rgb>>, pixels: int, i: int)
    requires
        frames_ok(frames, pixels),
        frames.len() >= 1,
        0 <= i < pixels,
    ensures
        displayable(mean_pixel(frames, i)),
{
    let n = frames.len() as int;
    let top = 255 * one();
    assert forall|ch: int| 0 <= ch < 3 implies 0 <= #[trigger] frame_sum(frames, i, ch) / n <= top by {
        lemma_frame_sum_bound(frames, pixels, i, ch);
        lemma_div_pos_is_pos(frame_sum(frames, i, ch), n);
        lemma_div_is_ordered(frame_sum(frames, i, ch), n * top, n);
        lemma_div_multiples_vanish(top, n);
    }
    assert(0 <= frame_sum(frames, i, 0) / n <= top);
    assert(0 <= frame_sum(frames, i, 1) / n <= top);
    assert(0 <= frame_sum(frames, i, 2) / n <= top);
}

proof fn lemma_sum_of_equal_frames(frames: Seq<Seq<Rgb>>, f: Seq<Rgb>, i: int, ch: int)
    requires
        forall|k: int| 0 <= k < frames.len() ==> #[trigger] frames[k] == f,
    ensures
        frame_sum(frames, i, ch) == frames.len() * channel(f[i], ch),
    decreases frames.len(),
{
    if frames.len() > 0 {
        let init = frames.drop_last();
        assert forall|k: int| 0 <= k < init.len() implies #[trigger] init[k] == f by {
            assert(init[k] == frames[k]);
        }
        lemma_sum_of_equal_frames(init, f, i, ch);
        assert(frames[frames.len() - 1] == f);
        assert(frames.len() * channel(f[i], ch) == init.len() * channel(f[i], ch) + channel(f[i], ch))
            by (nonlinear_arith)
            requires
                init.len() + 1 == frames.len(),
        ;
    }
}

/// Averaging frames that are all the same frame gives that frame back, pixel for pixel.
pub proof fn lemma_mean_of_equal_frames(frames: Seq<Seq<Rgb>>, f: Seq<Rgb>)
    requires
        frames.len() >= 1,
        forall|k: int| 0 <= k < frames.len() ==> #[trigger] frames[k] == f,
    ensures
        forall|i: int| 0 <= i < f.len() ==> #[trigger] mean_pixel(frames, i) == f[i],
{
    let n = frames.len() as int;
    assert forall|i: int| 0 <= i < f.len() implies #[trigger] mean_pixel(frames, i) == f[i] by {
        lemma_sum_of_equal_frames(frames, f, i, 0);
        lemma_sum_of_equal_frames(frames, f, i, 1);
        lemma_sum_of_equal_frames(frames, f, i, 2);
        lemma_div_multiples_vanish(f[i].r.val(), n);
        lemma_div_multiples_vanish(f[i].g.val(), n);
        lemma_div_multiples_vanish(f[i].b.val(), n);
    }
}

/// Taking one frame out of a list takes its pixel out of the sum.
proof fn lemma_sum_remove(frames: Seq<Seq<Rgb>>, j: int, i: int, ch: int)
    requires
        0 <= j < frames.len(),
    ensures
        frame_sum(frames, i, ch) == frame_sum(frames.remove(j), i, ch) + channel(frames[j][i], ch),
    decreases frames.len(),
{
    let n = frames.len() - 1;
    if j == n {
        assert(frames.remove(j) =~= frames.drop_last());
    } else {
        let init = frames.drop_last();
        lemma_sum_remove(init, j, i, ch);
        assert(frames.remove(j).drop_last() =~= init.remove(j));
        assert(frames.remove(j).last() == frames.last());
        assert(init[j] == frames[j]);
    }
}

/// The sums, and so the mean, do not depend on the order in which the frames come:
/// two lists holding the same frames, each as often, give the same mean.
pub proof fn lemma_mean_order_free(a: Seq<Seq<Rgb>>, b: Seq<Seq<Rgb>>)
    requires
        a.to_multiset() == b.to_multiset(),
    ensures
        a.len() == b.len(),
        forall|i: int| #[trigger] mean_pixel(a, i) == mean_pixel(b, i),
{
    broadcast use vstd::seq_lib::group_to_multiset_ensures;

    assert(a.len() == a.to_multiset().len());
    assert(b.len() == b.to_multiset().len());
    assert forall|i: int| #[trigger] mean_pixel(a, i) == mean_pixel(b, i) by {
        lemma_sum_order_free(a, b, i, 0);
        lemma_sum_order_free(a, b, i, 1);
        lemma_sum_order_free(a, b, i, 2);
    }
}

proof fn lemma_sum_order_free(a: Seq<Seq<Rgb>>, b: Seq<Seq<Rgb>>, i: int, ch: int)
    requires
        a.to_multiset() == b.to_multiset(),
    ensures
        a.len() == b.len(),
        frame_sum(a, i, ch) == frame_sum(b, i, ch),
    decreases a.len(),
{
    broadcast use vstd::seq_lib::group_to_multiset_ensures;

    assert(a.len() == a.to_multiset().len());
    assert(b.len() == b.to_multiset().len());
    if a.len() > 0 {
        let x = a.last();
        let init = a.drop_last();
        assert(a =~= init.push(x));
        assert(init.push(x).to_multiset() =~= init.to_multiset().insert(x));
        assert(a.to_multiset().count(x) > 0);
        assert(b.contains(x));
        let j = choose|j: int| 0 <= j < b.len() && b[j] == x;
        let rest = b.remove(j);
        assert(rest.to_multiset() =~= b.to_multiset().remove(x));
        assert(rest.to_multiset() =~= init.to_multiset());
        lemma_sum_order_free(init, rest, i, ch);
        lemma_sum_remove(b, j, i, ch);
    }
}

/// Running per-pixel sums of sample passes.
pub struct Accumulator {
    sums: Vec<Rgb>,
    count: u32,
    frames: Ghost<Seq<Seq<Rgb>>>,
}

impl Accumulator {
    /// The frames added so far, in order.
    pub closed spec fn frames(&self) -> Seq<Seq<Rgb>> {
        self.frames@
    }

    /// The number of pixels of each frame.
    pub closed spec fn pixels(&self) -> int {
        self.sums@.len() as int
    }

    /// The sums are those of the frames added, and there are few enough of them to fit.
    pub closed spec fn wf(&self) -> bool {
        &&& self.count == self.frames@.len()
        &&& self.count <= MAX_FRAMES
        &&& frames_ok(self.frames@, self.sums@.len() as int)
        &&& forall|i: int|
            0 <= i < self.sums@.len() ==> (#[trigger] self.sums@[i]).r.val() == frame_sum(
                self.frames@,
                i,
                0,
            ) && self.sums@[i].g.val() == frame_sum(self.frames@, i, 1) && self.sums@[i].b.val()
                == frame_sum(self.frames@, i, 2)
    }

    /// An accumulator for frames of `pixels` pixels, holding no frame yet.
    pub fn new(pixels: usize) -> (r: Accumulator)
        ensures
            r.wf(),
            r.frames() == Seq::<Seq<Rgb>>::empty(),
            r.pixels() == pixels,
    {
        let zero = Rgb { r: Scalar { raw: 0 }, g: Scalar { raw: 0 }, b: Scalar { raw: 0 } };
        let mut sums: Vec<Rgb> = Vec::new();
        let mut i: usize = 0;
        while i < pixels
            invariant
                i <= pixels,
                sums@.len() == i,
                forall|j: int| 0 <= j < i ==> #[trigger] sums@[j] == zero,
            decreases pixels - i,
        {
            sums.push(zero);
            i = i + 1;
        }
        Accumulator { sums, count: 0, frames: Ghost(Seq::empty()) }
    }

    /// How many frames have been added.
    pub fn frame_count(&self) -> (r: u32)
        requires
            self.wf(),
        ensures
            r == self.frames().len(),
    {
        self.count
    }

    /// Whether `frame` can be added: it has the right number of pixels, each in the
    /// display range, and fewer than `MAX_FRAMES` frames have been added.
    pub fn accepts(&self, frame: &Vec<Rgb>) -> (r: bool)
        requires
            self.wf(),
        ensures
            r == (frame_ok(frame@, self.pixels()) && self.frames().len() < MAX_FRAMES),
    {
        if self.count >= MAX_FRAMES || frame.len() != self.sums.len() {
            return false;
        }
        let top: i64 = 255 * ONE_RAW;
        let mut i: usize = 0;
        while i < frame.len()
            invariant
                i <= frame@.len(),
                top == 255 * one(),
                frame@.len() == self.pixels(),
                self.frames().len() < MAX_FRAMES,
                forall|j: int| 0 <= j < i ==> displayable(#[trigger] frame@[j]),
            decreases frame@.len() - i,
        {
            let c = frame[i];
            if c.r.raw < 0 || c.r.raw > top || c.g.raw < 0 || c.g.raw > top || c.b.raw < 0
                || c.b.raw > top {
                return false;
            }
            i = i + 1;
        }
        true
    }

    /// Adds a frame to the sums.
    pub fn add_frame(&mut self, frame: &Vec<Rgb>)
        requires
            old(self).wf(),
            frame_ok(frame@, old(self).pixels()),
            old(self).frames().len() < MAX_FRAMES,
        ensures
            final(self).wf(),
            final(self).frames() == old(self).frames().push(frame@),
            final(self).pixels() == old(self).pixels(),
    {
        let ghost old_frames = self.frames@;
        let ghost new_frames = old_frames.push(frame@);
        proof {
            assert(new_frames.drop_last() =~= old_frames);
            assert forall|k: int| 0 <= k < new_frames.len() implies (#[trigger] new_frames[k]).len()
                == self.sums@.len() && (forall|i: int|
                0 <= i < self.sums@.len() ==> displayable(#[trigger] new_frames[k][i])) by {
                if k < old_frames.len() {
                    assert(new_frames[k] == old_frames[k]);
                }
            }
        }
        let n = self.sums.len();
        let mut i: usize = 0;
        while i < n
            invariant
                n == self.sums@.len(),
                i <= n,
                self.count == old_frames.len(),
                self.count < MAX_FRAMES,
                self.frames@ == old_frames,
                new_frames == old_frames.push(frame@),
                new_frames.drop_last() == old_frames,
                frames_ok(old_frames, n as int),
                frames_ok(new_frames, n as int),
                frame_ok(frame@, n as int),
                forall|j: int|
                    0 <= j < i ==> (#[trigger] self.sums@[j]).r.val() == frame_sum(new_frames, j, 0)
                        && self.sums@[j].g.val() == frame_sum(new_frames, j, 1)
                        && self.sums@[j].b.val() == frame_sum(new_frames, j, 2),
                forall|j: int|
                    i <= j < n ==> (#[trigger] self.sums@[j]).r.val() == frame_sum(old_frames, j, 0)
                        && self.sums@[j].g.val() == frame_sum(old_frames, j, 1)
                        && self.sums@[j].b.val() == frame_sum(old_frames, j, 2),
            decreases n - i,
        {
            let s = self.sums[i];
            let f = frame[i];
            proof {
                assert(displayable(frame@[i as int]));
                lemma_frame_sum_bound(new_frames, n as int, i as int, 0);
                lemma_frame_sum_bound(new_frames, n as int, i as int, 1);
                lemma_frame_sum_bound(new_frames, n as int, i as int, 2);
                assert(new_frames.len() * (255 * one()) <= MAX_FRAMES * (255 * one())) by (
                nonlinear_arith)
                    requires
                        new_frames.len() <= MAX_FRAMES,
                ;
            }
            self.sums.set(i, s.add(f));
            i = i + 1;
        }
        self.count = self.count + 1;
        self.frames = Ghost(new_frames);
    }

    /// The per-pixel mean of the frames added, each channel rounded down.
    pub fn average(&self) -> (r: Vec<Rgb>)
        requires
            self.wf(),
            self.frames().len() >= 1,
        ensures
            r@.len() == self.pixels(),
            forall|i: int|
                0 <= i < r@.len() ==> #[trigger] r@[i] == mean_pixel(self.frames(), i)
                    && displayable(r@[i]),
    {
        let n: i64 = self.count as i64;
        let mut out: Vec<Rgb> = Vec::new();
        let mut i: usize = 0;
        while i < self.sums.len()
            invariant
                self.wf(),
                n == self.frames@.len(),
                n >= 1,
                i <= self.sums@.len(),
                out@.len() == i,
                forall|j: int|
                    0 <= j < i ==> #[trigger] out@[j] == mean_pixel(self.frames@, j) && displayable(
                        out@[j],
                    ),
            decreases self.sums@.len() - i,
        {
            let s = self.sums[i];
            proof {
                lemma_frame_sum_bound(self.frames@, self.sums@.len() as int, i as int, 0);
                lemma_frame_sum_bound(self.frames@, self.sums@.len() as int, i as int, 1);
                lemma_frame_sum_bound(self.frames@, self.sums@.len() as int, i as int, 2);
                lemma_mean_displayable(self.frames@, self.sums@.len() as int, i as int);
            }
            out.push(
                Rgb {
                    r: Scalar { raw: s.r.raw / n },
                    g: Scalar { raw: s.g.raw / n },
                    b: Scalar { raw: s.b.raw / n },
                },
            );
            i = i + 1;
        }
        out
    }
}

/// A channel value clamped to `[0, 255]` and rounded down to a byte.
pub fn quantize_channel(v: Scalar) -> (r: u8)
    ensures
        r == quantize(v.val()),
{
    if v.raw < 0 {
        0
    } else {
        let q: i64 = v.raw / ONE_RAW;
        if q > 255 {
            255
        } else {
            q as u8
        }
    }
}

/// The frame as 8-bit RGBA bytes, four per pixel in the frame's order, alpha opaque.
pub fn to_rgba8(frame: &Vec<Rgb>) -> (r: Vec<u8>)
    requires
        4 * frame@.len() <= usize::MAX,
    ensures
        r@.len() == 4 * frame@.len(),
        forall|i: int|
            0 <= i < frame@.len() ==> r@[4 * i] == quantize((#[trigger] frame@[i]).r.val()) && r@[4
                * i + 1] == quantize(frame@[i].g.val()) && r@[4 * i + 2] == quantize(
                frame@[i].b.val(),
            ) && r@[4 * i + 3] == 255,
{
    let mut out: Vec<u8> = Vec::new();
    let mut i: usize = 0;
    while i < frame.len()
        invariant
            i <= frame@.len(),
            out@.len() == 4 * i,
            4 * frame@.len() <= usize::MAX,
            forall|j: int|
                0 <= j < i ==> out@[4 * j] == quantize((#[trigger] frame@[j]).r.val()) && out@[4 * j
                    + 1] == quantize(frame@[j].g.val()) && out@[4 * j + 2] == quantize(
                    frame@[j].b.val(),
                ) && out@[4 * j + 3] == 255,
        decreases frame@.len() - i,
    {
        let c = frame[i];
        out.push(quantize_channel(c.r));
        out.push(quantize_channel(c.g));
        out.push(quantize_channel(c.b));
        out.push(255);
        i = i + 1;
    }
    out
}

} // verus!
