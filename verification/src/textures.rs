//! The texture store: decoded images keyed by tile symbol, with a safe,
//! bounds-clamped nearest-neighbor sample accessor. A source that failed
//! to decode is degraded to a generated grey placeholder rather than
//! aborting, so a missing or corrupt file never stops rendering.

use vstd::prelude::*;

use crate::color::Color;

verus! {

/// A decoded image: dimensions and a flat RGBA sample array, four bytes
/// per pixel, row-major.
pub struct Image {
    pub width: u32,
    pub height: u32,
    pub data: Vec<u8>,
}

impl Image {
    /// Well-formedness: non-degenerate, bounded dimensions and exactly
    /// four samples per pixel.
    pub open spec fn wf(&self) -> bool {
        &&& 1 <= self.width <= 16384
        &&& 1 <= self.height <= 16384
        &&& self.data.len() == (self.width as int) * (self.height as int) * 4
    }

    /// The sample at `(tx, ty)`, with each coordinate clamped to the valid
    /// range (nearest-neighbor lookup never reads out of bounds).
    pub open spec fn spec_sample(&self, tx: int, ty: int) -> Color {
        let x = if tx < self.width as int {
            tx
        } else {
            self.width as int - 1
        };
        let y = if ty < self.height as int {
            ty
        } else {
            self.height as int - 1
        };
        let idx = (y * (self.width as int) + x) * 4;
        Color { r: self.data[idx], g: self.data[idx + 1], b: self.data[idx + 2], a: self.data[idx + 3] }
    }
}

/// The grey placeholder an unreadable source degrades to: 128 by 128, all
/// pixels mid-grey and fully opaque.
pub open spec fn is_placeholder(img: Image) -> bool {
    &&& img.width == 128
    &&& img.height == 128
    &&& img.data.len() == 128 * 128 * 4
    &&& forall|k: int|
        0 <= k < img.data.len() ==> img.data[k] == (if k % 4 == 3 {
            255u8
        } else {
            128u8
        })
}

/// What the store keeps for one source entry: the decoded image itself if
/// it is well-formed, the generated placeholder otherwise.
pub open spec fn stores(src: Option<Image>, img: Image) -> bool {
    match src {
        Some(s) => if s.wf() {
            img == s
        } else {
            is_placeholder(img)
        },
        None => is_placeholder(img),
    }
}

/// Builds the 128 by 128 mid-grey placeholder image.
fn gen_placeholder() -> (img: Image)
    ensures
        img.wf(),
        is_placeholder(img),
{
    let n: usize = 128 * 128 * 4;
    let mut data: Vec<u8> = Vec::new();
    let mut k: usize = 0;
    while k < n
        invariant
            data.len() == k,
            k <= n,
            forall|i: int|
                0 <= i < k ==> data[i] == (if i % 4 == 3 {
                    255u8
                } else {
                    128u8
                }),
        decreases n - k,
    {
        if k % 4 == 3 {
            data.push(255);
        } else {
            data.push(128);
        }
        k = k + 1;
    }
    Image { width: 128, height: 128, data }
}

/// Bounds-clamped nearest-neighbor pixel lookup into a decoded image.
pub fn sample_pixel(image: &Image, tx: u32, ty: u32) -> (c: Color)
    requires
        image.wf(),
    ensures
        c == image.spec_sample(tx as int, ty as int),
{
    let w = image.width;
    let h = image.height;
    let x: u32 = if tx < w {
        tx
    } else {
        w - 1
    };
    let y: u32 = if ty < h {
        ty
    } else {
        h - 1
    };
    proof {
        assert(((y as int) * (w as int) + (x as int)) * 4 + 3 < (w as int) * (h as int) * 4
            && ((y as int) * (w as int) + (x as int)) * 4 + 3 < 0x8000_0000) by (nonlinear_arith)
            requires
                y < h,
                x < w,
                w <= 16384,
                h <= 16384,
        ;
    }
    let idx: usize = ((y as usize) * (w as usize) + (x as usize)) * 4;
    Color {
        r: image.data[idx],
        g: image.data[idx + 1],
        b: image.data[idx + 2],
        a: image.data[idx + 3],
    }
}

/// The texture store: a symbol-keyed collection of decoded images, built
/// once at startup, read-only afterwards.
pub struct TextureManager {
    pub entries: Vec<(char, Image)>,
}

impl TextureManager {
    /// Well-formedness: every stored image is well-formed and every symbol
    /// appears at most once.
    pub open spec fn wf(&self) -> bool {
        &&& forall|i: int| 0 <= i < self.entries.len() ==> (#[trigger] self.entries[i]).1.wf()
        &&& forall|i: int, j: int|
            0 <= i < j < self.entries.len() ==> (#[trigger] self.entries[i]).0 != (
            #[trigger] self.entries[j]).0
    }

    /// The image stored for `ch`; meaningful only when [`Self::spec_has`]
    /// holds, where unique keys make the choice determinate.
    pub open spec fn spec_lookup(&self, ch: char) -> Image {
        self.entries[choose|i: int|
            0 <= i < self.entries.len() && (#[trigger] self.entries[i]).0 == ch].1
    }

    /// With unique keys, any entry holding `ch` holds the stored image.
    pub proof fn lemma_lookup_unique(&self, ch: char, i: int)
        requires
            self.wf(),
            0 <= i < self.entries.len(),
            self.entries[i].0 == ch,
        ensures
            self.entries[i].1 == self.spec_lookup(ch),
    {
        assert(0 <= i < self.entries.len() && self.entries[i].0 == ch);
        let j = choose|j: int|
            0 <= j < self.entries.len() && (#[trigger] self.entries[j]).0 == ch;
        if i != j {
            assert(self.entries[i].0 != self.entries[j].0);
        }
    }

    /// Whether the store has an image for `ch`.
    pub open spec fn spec_has(&self, ch: char) -> bool {
        exists|i: int| 0 <= i < self.entries.len() && (#[trigger] self.entries[i]).0 == ch
    }

    /// Builds the store from decoded sources, one per distinct symbol. A
    /// source whose image is missing or malformed is degraded to the grey
    /// placeholder; exactly the listed symbols end up present.
    pub fn new(sources: Vec<(char, Option<Image>)>) -> (tm: TextureManager)
        requires
            forall|i: int, j: int|
                0 <= i < j < sources.len() ==> (#[trigger] sources[i]).0 != (
                #[trigger] sources[j]).0,
        ensures
            tm.wf(),
            tm.entries.len() == sources@.len(),
            forall|j: int|
                0 <= j < sources@.len() ==> (#[trigger] tm.entries[j]).0 == sources@[j].0
                    && stores(sources@[j].1, tm.entries[j].1),
            forall|ch: char|
                tm.spec_has(ch) <==> exists|j: int|
                    0 <= j < sources@.len() && (#[trigger] sources@[j]).0 == ch,
    {
        let ghost all = sources@;
        let mut remaining = sources;
        proof {
            assert(remaining.len() == all.len());
        }
        let mut entries: Vec<(char, Image)> = Vec::new();
        let mut done: usize = 0;
        while remaining.len() > 0
            invariant
                all.len() <= usize::MAX,
                all.len() == done + remaining.len(),
                remaining@ == all.skip(done as int),
                entries.len() == done,
                forall|i: int, j: int|
                    0 <= i < j < all.len() ==> (#[trigger] all[i]).0 != (#[trigger] all[j]).0,
                forall|i: int| 0 <= i < done ==> (#[trigger] entries[i]).0 == all[i].0,
                forall|i: int| 0 <= i < done ==> (#[trigger] entries[i]).1.wf(),
                forall|i: int| 0 <= i < done ==> stores(all[i].1, (#[trigger] entries[i]).1),
            decreases remaining.len(),
    {
            let (ch, src) = remaining.remove(0);
            assert(all[done as int].0 == ch && all[done as int].1 == src);
            let img: Image = match src {
                Some(s) => {
                    let ok = 1 <= s.width && s.width <= 16384 && 1 <= s.height && s.height
                        <= 16384;
                    if ok {
                        proof {
                            assert((s.width as int) * (s.height as int) * 4 <= 16384 * 16384
                                * 4) by (nonlinear_arith)
                                requires
                                    s.width <= 16384,
                                    s.height <= 16384,
                            ;
                        }
                        let need: usize = (s.width as usize) * (s.height as usize) * 4;
                        if s.data.len() == need {
                            s
                        } else {
                            gen_placeholder()
                        }
                    } else {
                        gen_placeholder()
                    }
                },
                None => gen_placeholder(),
            };
            entries.push((ch, img));
            done = done + 1;
        }
        let tm = TextureManager { entries };
        proof {
            assert forall|ch: char| tm.spec_has(ch) implies exists|j: int|
                0 <= j < sources@.len() && (#[trigger] sources@[j]).0 == ch by {
                let i = choose|i: int|
                    0 <= i < tm.entries.len() && (#[trigger] tm.entries[i]).0 == ch;
                assert(sources@[i].0 == ch);
            }
            assert forall|ch: char|
                (exists|j: int|
                    0 <= j < sources@.len() && (#[trigger] sources@[j]).0 == ch) implies tm.spec_has(
                ch,
            ) by {
                let j = choose|j: int|
                    0 <= j < sources@.len() && (#[trigger] sources@[j]).0 == ch;
                assert(tm.entries[j].0 == ch);
            }
        }
        tm
    }

    /// Whether an image is registered for `ch`.
    pub fn has_image(&self, ch: char) -> (b: bool)
        ensures
            b == self.spec_has(ch),
    {
        let mut i: usize = 0;
        while i < self.entries.len()
            invariant
                i <= self.entries.len(),
                forall|k: int| 0 <= k < i ==> (#[trigger] self.entries[k]).0 != ch,
            decreases self.entries.len() - i,
        {
            if self.entries[i].0 == ch {
                return true;
            }
            i = i + 1;
        }
        false
    }

    /// The dimensions of the image registered for `ch`, if any.
    pub fn image_size(&self, ch: char) -> (r: Option<(u32, u32)>)
        requires
            self.wf(),
        ensures
            r == (if self.spec_has(ch) {
                Some((self.spec_lookup(ch).width, self.spec_lookup(ch).height))
            } else {
                None::<(u32, u32)>
            }),
    {
        let mut i: usize = 0;
        while i < self.entries.len()
            invariant
                self.wf(),
                i <= self.entries.len(),
                forall|k: int| 0 <= k < i ==> (#[trigger] self.entries[k]).0 != ch,
            decreases self.entries.len() - i,
        {
            if self.entries[i].0 == ch {
                proof {
                    self.lemma_lookup_unique(ch, i as int);
                }
                return Some((self.entries[i].1.width, self.entries[i].1.height));
            }
            i = i + 1;
        }
        None
    }

    /// The clamped nearest-neighbor sample at `(tx, ty)` of the image
    /// registered for `ch`, or `None` when no image is registered.
    pub fn get_pixel_color(&self, ch: char, tx: u32, ty: u32) -> (r: Option<Color>)
        requires
            self.wf(),
        ensures
            r == (if self.spec_has(ch) {
                Some(self.spec_lookup(ch).spec_sample(tx as int, ty as int))
            } else {
                None::<Color>
            }),
    {
        let mut i: usize = 0;
        while i < self.entries.len()
            invariant
                self.wf(),
                i <= self.entries.len(),
                forall|k: int| 0 <= k < i ==> (#[trigger] self.entries[k]).0 != ch,
            decreases self.entries.len() - i,
        {
            if self.entries[i].0 == ch {
                proof {
                    self.lemma_lookup_unique(ch, i as int);
                }
                return Some(sample_pixel(&self.entries[i].1, tx, ty));
            }
            i = i + 1;
        }
        None
    }
}

} // verus!
