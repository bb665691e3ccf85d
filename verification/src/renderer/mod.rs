//! The renderer, and the pixels and blocks in which it keeps its samples.
pub mod block;
pub mod render;

use crate::color::{RGBA32, RGBA8};
use crate::img::Image;
use crate::sampler::Sample;
use vstd::prelude::*;

verus! {

/// The images that the texture maps of the materials refer to, by rank.
pub type TextureRegister = Vec<Image<RGBA8>>;

/// The texts of a sequence of paths.
pub open spec fn texts(paths: Seq<String>) -> Seq<Seq<char>> {
    Seq::new(paths.len(), |i: int| paths[i]@)
}

/// The different paths among the first `k` of `paths`, each of them once,
/// in the order in which they first occur: the paths of the images of a
/// register, by rank.
pub open spec fn register_of(paths: Seq<Seq<char>>, k: int) -> Seq<Seq<char>>
    decreases k,
{
    if k <= 0 {
        Seq::empty()
    } else {
        let before = register_of(paths, k - 1);
        if before.contains(paths[k - 1]) {
            before
        } else {
            before.push(paths[k - 1])
        }
    }
}

/// A register holds each of the paths it was made from, no other path, and
/// none twice.
pub proof fn lemma_register(paths: Seq<Seq<char>>, k: int)
    requires
        0 <= k <= paths.len(),
    ensures
        forall|i: int| 0 <= i < k ==> register_of(paths, k).contains(#[trigger] paths[i]),
        forall|j: int|
            0 <= j < register_of(paths, k).len() ==> exists|i: int|
                0 <= i < k && #[trigger] paths[i] == #[trigger] register_of(paths, k)[j],
        register_of(paths, k).no_duplicates(),
    decreases k,
{
    if k > 0 {
        lemma_register(paths, k - 1);
        let before = register_of(paths, k - 1);
        let now = register_of(paths, k);
        let last = paths[k - 1];
        assert forall|j: int| 0 <= j < now.len() implies exists|i: int|
            0 <= i < k && #[trigger] paths[i] == #[trigger] now[j] by {
            if j < before.len() {
                assert(now[j] == before[j]);
                let w = choose|w: int| 0 <= w < k - 1 && #[trigger] paths[w] == before[j];
                assert(paths[w] == now[j]);
            } else {
                assert(paths[k - 1] == now[j]);
            }
        }
        assert forall|i: int| 0 <= i < k implies now.contains(#[trigger] paths[i]) by {
            if i < k - 1 {
                let w = choose|w: int| 0 <= w < before.len() && #[trigger] before[w] == paths[i];
                assert(now[w] == paths[i]);
            } else if before.contains(last) {
            } else {
                assert(now[before.len() as int] == last);
            }
        }
    }
}

/// Gives each path the rank of its image in a register where every image
/// stands once: a path that was met before shares the slot of the first,
/// and a new path takes the next free slot. Returns the slot of each path,
/// and the paths of the images of the register, by rank.
pub fn assign_slots(paths: &Vec<String>) -> (r: (Vec<usize>, Vec<String>))
    ensures
        texts(r.1@) == register_of(texts(paths@), paths@.len() as int),
        r.0@.len() == paths@.len(),
        forall|i: int|
            0 <= i < paths@.len() ==> (#[trigger] r.0@[i]) < r.1@.len() && r.1@[r.0@[i] as int]@
                == paths@[i]@,
{
    let mut slots: Vec<usize> = Vec::new();
    let mut register: Vec<String> = Vec::new();
    let ghost all = texts(paths@);
    let mut i: usize = 0;
    while i < paths.len()
        invariant
            i <= paths@.len(),
            all == texts(paths@),
            texts(register@) == register_of(all, i as int),
            slots@.len() == i,
            forall|k: int|
                0 <= k < i ==> (#[trigger] slots@[k]) < register@.len() && register@[slots@[k] as int]@
                    == paths@[k]@,
        decreases paths@.len() - i,
    {
        let ghost before = texts(register@);
        let mut found: Option<usize> = None;
        let mut j: usize = 0;
        while j < register.len() && found.is_none()
            invariant
                j <= register@.len(),
                i < paths@.len(),
                found is None ==> forall|k: int| 0 <= k < j ==> (#[trigger] register@[k])@ != paths@[i as int]@,
                found matches Some(f) ==> f < register@.len() && register@[f as int]@ == paths@[i as int]@,
            decreases register@.len() - j + (if found is None { 1int } else { 0int }),
        {
            if register[j] == paths[i] {
                found = Some(j);
            } else {
                j = j + 1;
            }
        }
        assert(all[i as int] == paths@[i as int]@);
        match found {
            Some(f) => {
                proof {
                    assert(before[f as int] == all[i as int]);
                }
                slots.push(f);
            },
            None => {
                proof {
                    if before.contains(all[i as int]) {
                        let w = choose|w: int| 0 <= w < before.len() && #[trigger] before[w] == all[i as int];
                        assert(register@[w]@ == paths@[i as int]@);
                    }
                }
                slots.push(register.len());
                register.push(paths[i].clone());
                proof {
                    assert(texts(register@) =~= before.push(all[i as int]));
                }
            },
        }
        i = i + 1;
    }
    (slots, register)
}

/// The store in which the sampler puts its samples and from which the
/// filter reads them; another name of a block.
pub type RenderData = crate::renderer::block::Block;

/// A pixel with its samples.
#[derive(Clone, Debug)]
pub struct Pixel {
    pub x: u32,
    pub y: u32,
    pub samples: Vec<Sample>,
}

impl Pixel {
    /// The pixel at column `x` and line `y` of its block, without samples.
    pub fn new(x: u32, y: u32) -> (p: Pixel)
        ensures
            p.x == x,
            p.y == y,
            p.samples@.len() == 0,
    {
        Pixel { x: x, y: y, samples: Vec::new() }
    }

    pub fn add_sample(&mut self, sample: Sample)
        ensures
            final(self).samples@ == old(self).samples@.push(sample),
            final(self).x == old(self).x,
            final(self).y == old(self).y,
    {
        self.samples.push(sample);
    }

    /// The samples of the pixel, in the order in which they were added.
    pub fn samples(&self) -> (s: &Vec<Sample>)
        ensures
            s@ == self.samples@,
    {
        &self.samples
    }

    /// The mean of the colours of the samples of the pixel, which must have
    /// one sample at least.
    pub fn get_average_color(&self) -> (c: RGBA32)
        requires
            0 < self.samples@.len() <= u32::MAX,
        ensures
            c == crate::color::average_color(crate::filter::filters::colors_of(self.samples@)),
    {
        let mut colors: Vec<RGBA32> = Vec::new();
        let mut i: usize = 0;
        while i < self.samples.len()
            invariant
                i <= self.samples@.len(),
                colors@.len() == i,
                forall|k: int| 0 <= k < i ==> colors@[k] == self.samples@[k].color,
            decreases self.samples@.len() - i,
        {
            colors.push(self.samples[i].color);
            i = i + 1;
        }
        proof {
            assert(colors@ =~= crate::filter::filters::colors_of(self.samples@));
        }
        crate::color::make_average_color(colors.as_slice())
    }

    pub fn x(&self) -> (x: u32)
        ensures
            x == self.x,
    {
        self.x
    }

    pub fn y(&self) -> (y: u32)
        ensures
            y == self.y,
    {
        self.y
    }
}

} // verus!
