//! The RGBA framebuffer that layers are composited into.

use vstd::prelude::*;

verus! {

/// What a [`FrameBuffer`] holds: its dimensions and its pixels in row-major
/// order, each `[R, G, B, A]`.
pub struct FrameView {
    pub width: u32,
    pub height: u32,
    pub pixels: Seq<[u8; 4]>,
}

/// A fully transparent black pixel.
pub open spec fn transparent() -> [u8; 4] {
    [0u8, 0u8, 0u8, 0u8]
}

/// An RGBA framebuffer of `width * height` pixels in row-major order.
pub struct FrameBuffer {
    width: u32,
    height: u32,
    pixels: Vec<[u8; 4]>,
}

impl View for FrameBuffer {
    type V = FrameView;

    closed spec fn view(&self) -> FrameView {
        FrameView { width: self.width, height: self.height, pixels: self.pixels@ }
    }
}

impl FrameBuffer {
    /// The framebuffer holds exactly one pixel per position of its grid.
    pub open spec fn wf(&self) -> bool {
        self@.pixels.len() == self@.width * self@.height
    }

    /// Creates a `width x height` framebuffer with every pixel transparent
    /// black.
    pub fn new(width: u32, height: u32) -> (fb: FrameBuffer)
        requires
            width * height <= usize::MAX,
        ensures
            fb.wf(),
            fb@.width == width,
            fb@.height == height,
            forall|i: int| 0 <= i < fb@.pixels.len() ==> fb@.pixels[i] == transparent(),
    {
        let n: usize = (width as usize) * (height as usize);
        let mut pixels: Vec<[u8; 4]> = Vec::new();
        let mut i: usize = 0;
        while i < n
            invariant
                i <= n,
                pixels@.len() == i,
                forall|j: int| 0 <= j < i ==> pixels@[j] == transparent(),
            decreases n - i,
        {
            pixels.push([0u8, 0u8, 0u8, 0u8]);
            i = i + 1;
        }
        FrameBuffer { width, height, pixels }
    }

    /// Width in pixels.
    pub fn width(&self) -> (w: u32)
        ensures
            w == self@.width,
    {
        self.width
    }

    /// Height in pixels.
    pub fn height(&self) -> (h: u32)
        ensures
            h == self@.height,
    {
        self.height
    }

    /// The pixels, row by row.
    pub fn pixels(&self) -> (p: &[[u8; 4]])
        ensures
            p@ == self@.pixels,
    {
        self.pixels.as_slice()
    }

    /// The pixels, row by row, for writing in place.
    pub fn pixels_mut(&mut self) -> (p: &mut [[u8; 4]])
        ensures
            p@ == old(self)@.pixels,
            final(self)@.pixels == final(p)@,
            final(self)@.width == old(self)@.width,
            final(self)@.height == old(self)@.height,
    {
        self.pixels.as_mut_slice()
    }

    /// Resets every pixel to transparent black.
    pub fn clear(&mut self)
        ensures
            final(self)@.width == old(self)@.width,
            final(self)@.height == old(self)@.height,
            final(self)@.pixels.len() == old(self)@.pixels.len(),
            forall|i: int| 0 <= i < final(self)@.pixels.len() ==> final(self)@.pixels[i] == transparent(),
    {
        let n = self.pixels.len();
        let mut i: usize = 0;
        while i < n
            invariant
                i <= n,
                n == self.pixels@.len(),
                self.width == old(self).width,
                self.height == old(self).height,
                self.pixels@.len() == old(self).pixels@.len(),
                forall|j: int| 0 <= j < i ==> self.pixels@[j] == transparent(),
            decreases n - i,
        {
            self.pixels.set(i, [0u8, 0u8, 0u8, 0u8]);
            i = i + 1;
        }
    }
}

/// The pixels as one byte string: `R, G, B, A` of the first pixel, then of
/// the second, and so on.
pub open spec fn rgba_bytes(pixels: Seq<[u8; 4]>) -> Seq<u8>
    decreases pixels.len(),
{
    if pixels.len() == 0 {
        Seq::empty()
    } else {
        rgba_bytes(pixels.drop_last()) + pixels.last()@
    }
}

/// `bytes` holds `pixels` in row-major order, four bytes each in the order
/// R, G, B, A: byte `4 * i + c` is channel `c` of pixel `i`, and there is
/// nothing else.
pub open spec fn holds_pixels_in_order(bytes: Seq<u8>, pixels: Seq<[u8; 4]>) -> bool {
    &&& bytes.len() == 4 * pixels.len()
    &&& forall|i: int, c: int|
        0 <= i < pixels.len() && 0 <= c < 4 ==> bytes[4 * i + c] == #[trigger] pixels[i][c]
}

/// The RGBA bytes of a pixel sequence hold byte `4 * i + c` = channel `c`
/// of pixel `i`, and are the only bytes that do.
pub proof fn lemma_rgba_bytes_layout(pixels: Seq<[u8; 4]>)
    ensures
        holds_pixels_in_order(rgba_bytes(pixels), pixels),
        forall|bytes: Seq<u8>| holds_pixels_in_order(bytes, pixels) ==> bytes == rgba_bytes(pixels),
    decreases pixels.len(),
{
    let n = pixels.len();
    if n > 0 {
        let init = pixels.drop_last();
        lemma_rgba_bytes_layout(init);
        let pre = rgba_bytes(init);
        let last = pixels.last();
        let all = rgba_bytes(pixels);
        assert(all == pre + last@);
        assert forall|i: int, c: int| 0 <= i < n && 0 <= c < 4 implies all[4 * i + c] == #[trigger] pixels[i][c] by {
            if i < n - 1 {
                assert(pixels[i] == init[i]);
                assert(init[i][c] == pre[4 * i + c]);
            } else {
                assert(4 * i + c == pre.len() + c);
                assert(last@[c] == last[c]);
            }
        }
    }
    assert forall|bytes: Seq<u8>| holds_pixels_in_order(bytes, pixels) implies bytes == rgba_bytes(pixels) by {
        lemma_pixel_bytes_unique(bytes, rgba_bytes(pixels), pixels);
    }
}

/// Two byte strings that both hold `pixels` in order are the same.
proof fn lemma_pixel_bytes_unique(b1: Seq<u8>, b2: Seq<u8>, pixels: Seq<[u8; 4]>)
    requires
        holds_pixels_in_order(b1, pixels),
        holds_pixels_in_order(b2, pixels),
    ensures
        b1 == b2,
{
    assert forall|k: int| 0 <= k < b1.len() implies b1[k] == b2[k] by {
        let i = k / 4;
        let c = k % 4;
        assert(k == 4 * i + c);
        assert(b1[4 * i + c] == pixels[i][c]);
        assert(b2[4 * i + c] == pixels[i][c]);
    }
    assert(b1 =~= b2);
}

/// Lays out `pixels` as contiguous RGBA bytes.
pub fn flatten_rgba(pixels: &[[u8; 4]]) -> (out: Vec<u8>)
    ensures
        out@ == rgba_bytes(pixels@),
        holds_pixels_in_order(out@, pixels@),
{
    let mut out: Vec<u8> = Vec::new();
    let n = pixels.len();
    let mut i: usize = 0;
    while i < n
        invariant
            i <= n,
            n == pixels@.len(),
            out@ == rgba_bytes(pixels@.take(i as int)),
        decreases n - i,
    {
        let px = pixels[i];
        out.push(px[0]);
        out.push(px[1]);
        out.push(px[2]);
        out.push(px[3]);
        proof {
            assert(pixels@.take(i + 1).drop_last() =~= pixels@.take(i as int));
            assert(px@ =~= seq![px[0], px[1], px[2], px[3]]);
        }
        i = i + 1;
    }
    proof {
        assert(pixels@.take(n as int) =~= pixels@);
        lemma_rgba_bytes_layout(pixels@);
    }
    out
}

/// The sum of channel `c` (0 = red, 1 = green, 2 = blue, 3 = alpha) over
/// `pixels`.
pub open spec fn channel_total(pixels: Seq<[u8; 4]>, c: int) -> int
    decreases pixels.len(),
{
    if pixels.len() == 0 {
        0
    } else {
        channel_total(pixels.drop_last(), c) + pixels.last()[c] as int
    }
}

/// The total over no pixels is zero, and the total over one pixel is that
/// pixel's value in the channel.
pub proof fn lemma_channel_total_single(p: [u8; 4], c: int)
    requires
        0 <= c < 4,
    ensures
        channel_total(Seq::<[u8; 4]>::empty(), c) == 0,
        channel_total(seq![p], c) == p[c] as int,
{
    assert(seq![p].drop_last() =~= Seq::<[u8; 4]>::empty());
    assert(seq![p].last() == p);
    assert(channel_total(seq![p], c) == channel_total(Seq::<[u8; 4]>::empty(), c) + p[c] as int);
}

/// Totals add up over a concatenation.
pub proof fn lemma_channel_total_concat(a: Seq<[u8; 4]>, b: Seq<[u8; 4]>, c: int)
    ensures
        channel_total(a + b, c) == channel_total(a, c) + channel_total(b, c),
    decreases b.len(),
{
    if b.len() == 0 {
        assert(a + b =~= a);
    } else {
        lemma_channel_total_concat(a, b.drop_last(), c);
        assert((a + b).drop_last() =~= a + b.drop_last());
        assert((a + b).last() == b.last());
    }
}

/// A prefix never sums to more than the whole.
proof fn lemma_channel_total_prefix(pixels: Seq<[u8; 4]>, c: int, i: int)
    requires
        0 <= i <= pixels.len(),
        0 <= c < 4,
    ensures
        0 <= channel_total(pixels.take(i), c) <= channel_total(pixels, c),
    decreases pixels.len(),
{
    if i == pixels.len() {
        assert(pixels.take(i) =~= pixels);
        lemma_channel_total_nonneg(pixels, c);
    } else {
        assert(pixels.take(i) =~= pixels.drop_last().take(i));
        lemma_channel_total_prefix(pixels.drop_last(), c, i);
    }
}

proof fn lemma_channel_total_nonneg(pixels: Seq<[u8; 4]>, c: int)
    requires
        0 <= c < 4,
    ensures
        channel_total(pixels, c) >= 0,
    decreases pixels.len(),
{
    if pixels.len() > 0 {
        lemma_channel_total_nonneg(pixels.drop_last(), c);
    }
}

/// Taking one pixel out of a sequence takes its channel value off the total.
proof fn lemma_channel_total_remove(pixels: Seq<[u8; 4]>, j: int, c: int)
    requires
        0 <= j < pixels.len(),
    ensures
        channel_total(pixels, c) == channel_total(pixels.remove(j), c) + pixels[j][c] as int,
    decreases pixels.len(),
{
    if j == pixels.len() - 1 {
        assert(pixels.remove(j) =~= pixels.drop_last());
    } else {
        lemma_channel_total_remove(pixels.drop_last(), j, c);
        assert(pixels.remove(j).drop_last() =~= pixels.drop_last().remove(j));
        assert(pixels.remove(j).last() == pixels.last());
    }
}

/// Channel totals do not depend on the order of the pixels: two sequences
/// that hold the same pixels, each as often, have the same totals.
pub proof fn lemma_channel_total_permutation(p: Seq<[u8; 4]>, q: Seq<[u8; 4]>, c: int)
    requires
        p.to_multiset() == q.to_multiset(),
    ensures
        channel_total(p, c) == channel_total(q, c),
    decreases p.len(),
{
    broadcast use vstd::seq_lib::group_to_multiset_ensures;
    if p.len() == 0 {
        assert(q.to_multiset().len() == 0);
        assert(q.len() == 0);
        assert(q =~= p);
    } else {
        let x = p.last();
        let n = p.len() - 1;
        assert(p.remove(n) =~= p.drop_last());
        assert(p.drop_last().to_multiset() == p.to_multiset().remove(x));
        assert(p.contains(x)) by {
            assert(p[n] == x);
        }
        assert(q.to_multiset().count(x) > 0);
        assert(q.contains(x));
        let j = choose|j: int| 0 <= j < q.len() && q[j] == x;
        assert(q.remove(j).to_multiset() == q.to_multiset().remove(q[j]));
        lemma_channel_total_permutation(p.drop_last(), q.remove(j), c);
        lemma_channel_total_remove(q, j, c);
    }
}

/// Returns the per-channel sums `(R, G, B, A)` of an RGBA pixel slice.
pub fn channel_sums(pixels: &[[u8; 4]]) -> (sums: (u32, u32, u32, u32))
    requires
        channel_total(pixels@, 0) <= u32::MAX,
        channel_total(pixels@, 1) <= u32::MAX,
        channel_total(pixels@, 2) <= u32::MAX,
        channel_total(pixels@, 3) <= u32::MAX,
    ensures
        sums.0 == channel_total(pixels@, 0),
        sums.1 == channel_total(pixels@, 1),
        sums.2 == channel_total(pixels@, 2),
        sums.3 == channel_total(pixels@, 3),
{
    let mut r: u32 = 0;
    let mut g: u32 = 0;
    let mut b: u32 = 0;
    let mut a: u32 = 0;
    let n = pixels.len();
    let mut i: usize = 0;
    while i < n
        invariant
            i <= n,
            n == pixels@.len(),
            forall|c: int| 0 <= c < 4 ==> channel_total(pixels@, c) <= u32::MAX,
            r == channel_total(pixels@.take(i as int), 0),
            g == channel_total(pixels@.take(i as int), 1),
            b == channel_total(pixels@.take(i as int), 2),
            a == channel_total(pixels@.take(i as int), 3),
        decreases n - i,
    {
        let px = pixels[i];
        proof {
            let next = pixels@.take(i + 1);
            assert(next.drop_last() =~= pixels@.take(i as int));
            assert(next.last() == px);
            lemma_channel_total_prefix(pixels@, 0, i + 1);
            lemma_channel_total_prefix(pixels@, 1, i + 1);
            lemma_channel_total_prefix(pixels@, 2, i + 1);
            lemma_channel_total_prefix(pixels@, 3, i + 1);
        }
        r = r + px[0] as u32;
        g = g + px[1] as u32;
        b = b + px[2] as u32;
        a = a + px[3] as u32;
        i = i + 1;
    }
    proof {
        assert(pixels@.take(n as int) =~= pixels@);
    }
    (r, g, b, a)
}

/// The per-channel sums `(R, G, B, A)` of an RGBA pixel slice, or `None`
/// when a sum does not fit in a `u32`.
pub fn try_channel_sums(pixels: &[[u8; 4]]) -> (sums: Option<(u32, u32, u32, u32)>)
    ensures
        sums is Some <==> forall|c: int| 0 <= c < 4 ==> channel_total(pixels@, c) <= u32::MAX,
        sums matches Some(t) ==> {
            &&& t.0 == channel_total(pixels@, 0)
            &&& t.1 == channel_total(pixels@, 1)
            &&& t.2 == channel_total(pixels@, 2)
            &&& t.3 == channel_total(pixels@, 3)
        },
{
    let mut r: u32 = 0;
    let mut g: u32 = 0;
    let mut b: u32 = 0;
    let mut a: u32 = 0;
    let n = pixels.len();
    let mut i: usize = 0;
    while i < n
        invariant
            i <= n,
            n == pixels@.len(),
            r == channel_total(pixels@.take(i as int), 0),
            g == channel_total(pixels@.take(i as int), 1),
            b == channel_total(pixels@.take(i as int), 2),
            a == channel_total(pixels@.take(i as int), 3),
        decreases n - i,
    {
        let px = pixels[i];
        let ghost next = pixels@.take(i + 1);
        proof {
            assert(next.drop_last() =~= pixels@.take(i as int));
            assert(next.last() == px);
            lemma_channel_total_prefix(pixels@, 0, i + 1);
            lemma_channel_total_prefix(pixels@, 1, i + 1);
            lemma_channel_total_prefix(pixels@, 2, i + 1);
            lemma_channel_total_prefix(pixels@, 3, i + 1);
        }
        match r.checked_add(px[0] as u32) {
            Some(v) => { r = v; },
            None => { return None; },
        }
        match g.checked_add(px[1] as u32) {
            Some(v) => { g = v; },
            None => { return None; },
        }
        match b.checked_add(px[2] as u32) {
            Some(v) => { b = v; },
            None => { return None; },
        }
        match a.checked_add(px[3] as u32) {
            Some(v) => { a = v; },
            None => { return None; },
        }
        i = i + 1;
    }
    proof {
        assert(pixels@.take(n as int) =~= pixels@);
    }
    Some((r, g, b, a))
}

} // verus!
