//! Images by palette, as a GIF holds them.
//!
//! The palette of an image lists its pixels' values once each, in rising
//! order; the image itself is then a list of places in the palette. What
//! writes the file is not here: this module gives it the numbers.

use crate::image::Image;
use vstd::prelude::*;

verus! {

/// The number of colours that a palette holds at most.
pub const MAX_COLORS: usize = 256;

/// The longest side, in pixels, of an image that can be indexed.
pub const MAX_SIDE: u32 = 65_535;

/// The values of `p` rise from each to the next.
pub open spec fn increasing(p: Seq<u32>) -> bool {
    forall|i: int, j: int| 0 <= i < j < p.len() ==> p[i] < p[j]
}

/// `p` is the palette of `pixels`: it rises, and holds the values that occur
/// among the pixels and no others.
pub open spec fn is_palette(p: Seq<u32>, pixels: Seq<u32>) -> bool {
    &&& increasing(p)
    &&& forall|v: u32| p.contains(v) <==> pixels.contains(v)
}

/// The number of different values among `pixels`.
pub open spec fn colors(pixels: Seq<u32>) -> nat {
    pixels.to_set().len()
}

/// A palette has one entry for each of the different values of the pixels.
pub proof fn lemma_palette_len(p: Seq<u32>, pixels: Seq<u32>)
    requires
        is_palette(p, pixels),
    ensures
        p.len() == colors(pixels),
{
    assert(p.no_duplicates());
    p.unique_seq_to_set();
    assert(p.to_set() =~= pixels.to_set());
}

/// Pixels have one palette only.
pub proof fn lemma_palette_unique(p: Seq<u32>, q: Seq<u32>, pixels: Seq<u32>)
    requires
        is_palette(p, pixels),
        is_palette(q, pixels),
    ensures
        p == q,
{
    lemma_palette_len(p, pixels);
    lemma_palette_len(q, pixels);
    assert forall|k: int| 0 <= k < p.len() implies p[k] == q[k] by {
        lemma_same_place(p, q, k);
    }
    assert(p =~= q);
}

/// Two rising sequences of the same values agree up to place `k`.
proof fn lemma_same_place(p: Seq<u32>, q: Seq<u32>, k: int)
    requires
        increasing(p),
        increasing(q),
        p.len() == q.len(),
        forall|v: u32| p.contains(v) <==> q.contains(v),
        0 <= k < p.len(),
    ensures
        p[k] == q[k],
    decreases k,
{
    if k > 0 {
        lemma_same_place(p, q, k - 1);
    }
    assert(p.contains(p[k]));
    assert(q.contains(q[k]));
    let m = choose|m: int| 0 <= m < q.len() && q[m] == p[k];
    let n = choose|n: int| 0 <= n < p.len() && p[n] == q[k];
    if m < k {
        assert(q[m] <= q[k - 1]);
        assert(p[k - 1] < p[k]);
    }
    if n < k {
        assert(p[n] <= p[k - 1]);
        assert(q[k - 1] < q[k]);
    }
}

/// The first place in the rising `p` whose value is not below `v`, or the
/// length of `p` where all are below.
fn lower_bound(p: &Vec<u32>, v: u32) -> (at: usize)
    requires
        increasing(p@),
    ensures
        at <= p@.len(),
        forall|i: int| 0 <= i < at ==> p@[i] < v,
        forall|i: int| at <= i < p@.len() ==> p@[i] >= v,
{
    let mut low: usize = 0;
    let mut high: usize = p.len();
    while low < high
        invariant
            low <= high <= p@.len(),
            increasing(p@),
            forall|i: int| 0 <= i < low ==> p@[i] < v,
            forall|i: int| high <= i < p@.len() ==> p@[i] >= v,
        decreases high - low,
    {
        let mid = low + (high - low) / 2;
        if p[mid] < v {
            low = mid + 1;
        } else {
            high = mid;
        }
    }
    low
}

/// The palette of `pixels`, where it has no more than `limit` entries.
pub fn palette(pixels: &[u32], limit: usize) -> (found: Option<Vec<u32>>)
    ensures
        found is Some <==> colors(pixels@) <= limit,
        found is Some ==> is_palette(found->0@, pixels@) && found->0@.len() == colors(pixels@),
{
    let mut p: Vec<u32> = Vec::new();
    let n = pixels.len();
    let mut k: usize = 0;
    assert(pixels@.take(0) =~= Seq::<u32>::empty());
    while k < n
        invariant
            k <= n,
            n == pixels@.len(),
            p@.len() <= limit,
            is_palette(p@, pixels@.take(k as int)),
        decreases n - k,
    {
        let v = pixels[k];
        let at = lower_bound(&p, v);
        let ghost seen = pixels@.take(k as int);
        let ghost next = pixels@.take(k + 1);
        assert(next =~= seen.push(v));
        if at < p.len() && p[at] == v {
            assert forall|u: u32| p@.contains(u) <==> next.contains(u) by {
                if next.contains(u) && u != v {
                    let i = choose|i: int| 0 <= i < next.len() && next[i] == u;
                    assert(seen[i] == u);
                }
                if seen.contains(u) {
                    let i = choose|i: int| 0 <= i < seen.len() && seen[i] == u;
                    assert(next[i] == u);
                }
            }
        } else {
            let ghost grown = p@.insert(at as int, v);
            assert(increasing(grown));
            assert forall|u: u32| grown.contains(u) <==> next.contains(u) by {
                if grown.contains(u) {
                    let i = choose|i: int| 0 <= i < grown.len() && grown[i] == u;
                    if i < at {
                        assert(p@[i] == u);
                    } else if i > at {
                        assert(p@[i - 1] == u);
                    }
                    if u != v {
                        assert(p@.contains(u));
                        let j = choose|j: int| 0 <= j < seen.len() && seen[j] == u;
                        assert(next[j] == u);
                    } else {
                        assert(next[k as int] == v);
                    }
                }
                if next.contains(u) {
                    if u == v {
                        assert(grown[at as int] == v);
                    } else {
                        let i = choose|i: int| 0 <= i < next.len() && next[i] == u;
                        assert(seen[i] == u);
                        assert(p@.contains(u));
                        let j = choose|j: int| 0 <= j < p@.len() && p@[j] == u;
                        if j < at {
                            assert(grown[j] == u);
                        } else {
                            assert(grown[j + 1] == u);
                        }
                    }
                }
            }
            if p.len() >= limit {
                proof {
                    lemma_palette_len(grown, next);
                    vstd::seq_lib::seq_to_set_is_finite(pixels@);
                    assert forall|u: u32| next.to_set().contains(u) implies pixels@.to_set().contains(
                        u,
                    ) by {
                        let i = choose|i: int| 0 <= i < next.len() && next[i] == u;
                        assert(pixels@[i] == u);
                    }
                    vstd::set_lib::lemma_len_subset(next.to_set(), pixels@.to_set());
                }
                return None;
            }
            p.insert(at, v);
        }
        k += 1;
    }
    proof {
        assert(pixels@.take(n as int) =~= pixels@);
        lemma_palette_len(p@, pixels@);
    }
    Some(p)
}

/// For each pixel its place in the palette `p`.
pub fn indices(pixels: &[u32], p: &Vec<u32>) -> (places: Vec<u8>)
    requires
        is_palette(p@, pixels@),
        p@.len() <= MAX_COLORS,
    ensures
        places@.len() == pixels@.len(),
        forall|k: int| 0 <= k < pixels@.len() ==> p@[#[trigger] places@[k] as int] == pixels@[k],
{
    let mut places: Vec<u8> = Vec::new();
    let n = pixels.len();
    let mut k: usize = 0;
    while k < n
        invariant
            k <= n,
            n == pixels@.len(),
            is_palette(p@, pixels@),
            p@.len() <= MAX_COLORS,
            places@.len() == k,
            forall|m: int| 0 <= m < k ==> p@[#[trigger] places@[m] as int] == pixels@[m],
        decreases n - k,
    {
        let v = pixels[k];
        let at = lower_bound(p, v);
        proof {
            assert(pixels@.contains(v));
            assert(p@.contains(v));
            let j = choose|j: int| 0 <= j < p@.len() && p@[j] == v;
            assert(j >= at);
            if j > at {
                assert(p@[at as int] < p@[j]);
            }
        }
        places.push(at as u8);
        k += 1;
    }
    places
}

/// An image by palette.
#[derive(Debug)]
pub struct Indexed {
    pub width: u16,
    pub height: u16,
    /// The values of the pixels, once each, in rising order.
    pub palette: Vec<u32>,
    /// For each pixel, row after row, the place of its value in the palette.
    pub indices: Vec<u8>,
}

/// Why an image cannot be indexed.
#[derive(Clone, Copy, Debug, PartialEq, Eq, Structural)]
pub enum IndexError {
    /// A side of the image is longer than [`MAX_SIDE`].
    TooLarge,
    /// The image has more than [`MAX_COLORS`] different colours.
    TooManyColors,
}

impl Image {
    /// The image by palette.
    pub fn gif(&self) -> (made: Result<Indexed, IndexError>)
        ensures
            made == Err::<Indexed, IndexError>(IndexError::TooLarge) <==> self.spec_width()
                > MAX_SIDE || self.spec_height() > MAX_SIDE,
            made == Err::<Indexed, IndexError>(IndexError::TooManyColors) <==> self.spec_width()
                <= MAX_SIDE && self.spec_height() <= MAX_SIDE && colors(self@) > MAX_COLORS,
            made is Ok ==> {
                &&& made->Ok_0.width == self.spec_width()
                &&& made->Ok_0.height == self.spec_height()
                &&& is_palette(made->Ok_0.palette@, self@)
                &&& made->Ok_0.indices@.len() == self@.len()
                &&& forall|k: int|
                    0 <= k < self@.len() ==> made->Ok_0.palette@[#[trigger] made->Ok_0.indices@[k] as int]
                        == self@[k]
            },
    {
        if self.width() > MAX_SIDE || self.height() > MAX_SIDE {
            return Err(IndexError::TooLarge);
        }
        let Some(palette) = palette(self.data(), MAX_COLORS) else {
            return Err(IndexError::TooManyColors);
        };
        proof {
            lemma_palette_len(palette@, self@);
        }
        let indices = indices(self.data(), &palette);
        Ok(Indexed { width: self.width() as u16, height: self.height() as u16, palette, indices })
    }
}

} // verus!
