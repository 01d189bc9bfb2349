//! Texture identifiers and the per-frame delta consumed by the pool.

use vstd::prelude::*;
use crate::image::{Color32, ColorImage, ImageModel};

verus! {

/// A texture identifier. The two id spaces are disjoint by construction:
/// `Managed` ids are assigned by the GUI framework and driven only by the
/// delta stream; `User` ids are assigned by the pool itself when the host
/// application registers a native texture.
#[derive(Clone, Copy, PartialEq, Eq, Structural, Debug)]
pub enum TextureId {
    Managed(u64),
    User(u64),
}

/// One instruction of the delta stream for a single texture id.
pub enum TextureChange {
    /// Replace the whole texture with a new image.
    Full(ColorImage),
    /// Overlay `image` onto the existing texture with its top-left corner at
    /// column `pos_x`, row `pos_y`.
    Partial { pos_x: usize, pos_y: usize, image: ColorImage },
}

/// The mathematical value of a [`TextureChange`].
pub ghost enum ChangeModel {
    Full(ImageModel),
    Partial { pos_x: nat, pos_y: nat, image: ImageModel },
}

impl ChangeModel {
    pub open spec fn img(self) -> ImageModel {
        match self {
            ChangeModel::Full(img) => img,
            ChangeModel::Partial { image, .. } => image,
        }
    }

    pub open spec fn wf(self) -> bool {
        self.img().wf()
    }
}

impl View for TextureChange {
    type V = ChangeModel;

    open spec fn view(&self) -> ChangeModel {
        match self {
            TextureChange::Full(img) => ChangeModel::Full(img@),
            TextureChange::Partial { pos_x, pos_y, image } => ChangeModel::Partial {
                pos_x: *pos_x as nat,
                pos_y: *pos_y as nat,
                image: image@,
            },
        }
    }
}

/// One frame's batch of texture instructions: the ordered `set` list is
/// applied first, then every id in `free` is released.
pub struct TexturesDelta {
    pub set: Vec<(TextureId, TextureChange)>,
    pub free: Vec<TextureId>,
}

/// The mathematical value of a `set` list.
pub open spec fn set_models(s: Seq<(TextureId, TextureChange)>) -> Seq<(TextureId, ChangeModel)> {
    s.map_values(|e: (TextureId, TextureChange)| (e.0, e.1@))
}

/// The images for which the batch asks a new GPU texture to be built, in
/// order: one for each full replace of a `Managed` id with non-zero area.
/// Zero-area full replaces, partial patches and `User`-targeted entries
/// build nothing.
pub open spec fn spec_creations(entries: Seq<(TextureId, ChangeModel)>) -> Seq<ImageModel>
    decreases entries.len(),
{
    if entries.len() == 0 {
        Seq::empty()
    } else {
        let rest = spec_creations(entries.drop_first());
        match entries[0].0 {
            TextureId::Managed(_) => match entries[0].1 {
                ChangeModel::Full(img) => if img.width > 0 && img.height > 0 {
                    seq![img] + rest
                } else {
                    rest
                },
                ChangeModel::Partial { .. } => rest,
            },
            TextureId::User(_) => rest,
        }
    }
}

impl Clone for ColorImage {
    /// An exact copy: same dimensions, same pixels.
    fn clone(&self) -> (r: Self)
        ensures
            r@ == self@,
    {
        let mut pixels: Vec<Color32> = Vec::new();
        let mut i: usize = 0;
        while i < self.pixels.len()
            invariant
                i <= self.pixels@.len(),
                pixels@ == self.pixels@.take(i as int),
            decreases self.pixels@.len() - i,
        {
            pixels.push(self.pixels[i]);
            proof {
                assert(self.pixels@.take(i as int).push(self.pixels@[i as int]) =~= self.pixels@.take(
                    i as int + 1));
            }
            i = i + 1;
        }
        proof {
            assert(self.pixels@.take(self.pixels@.len() as int) =~= self.pixels@);
        }
        ColorImage { width: self.width, height: self.height, pixels }
    }
}

impl TexturesDelta {
    /// Every image in the batch covers its declared dimensions.
    pub open spec fn wf(self) -> bool {
        forall|i: int|
            0 <= i < self.set@.len() ==> (#[trigger] set_models(self.set@)[i]).1.wf()
    }

    /// The images for which this batch needs a new GPU texture, in the order
    /// in which [`crate::texture::TexturePool::update`] will consume the
    /// handles built from them.
    pub fn creations(&self) -> (r: Vec<ColorImage>)
        ensures
            r@.map_values(|c: ColorImage| c@) == spec_creations(set_models(self.set@)),
    {
        let ghost sm = set_models(self.set@);
        let mut r: Vec<ColorImage> = Vec::new();
        let mut i: usize = 0;
        proof {
            assert(sm.skip(0) =~= sm);
        }
        while i < self.set.len()
            invariant
                i <= self.set@.len(),
                sm == set_models(self.set@),
                r@.map_values(|c: ColorImage| c@) + spec_creations(sm.skip(i as int)) == spec_creations(sm),
            decreases self.set@.len() - i,
        {
            let ghost prev = r@.map_values(|c: ColorImage| c@);
            proof {
                assert(sm.skip(i as int).drop_first() =~= sm.skip(i as int + 1));
            }
            let (tid, ch) = &self.set[i];
            match tid {
                TextureId::Managed(_) => match ch {
                    TextureChange::Full(img) => {
                        if img.width > 0 && img.height > 0 {
                            r.push(img.clone());
                            proof {
                                assert(r@.map_values(|c: ColorImage| c@) =~= prev + seq![img@]);
                                assert(prev + (seq![img@] + spec_creations(sm.skip(i as int + 1)))
                                    =~= (prev + seq![img@]) + spec_creations(sm.skip(i as int + 1)));
                            }
                        }
                    },
                    TextureChange::Partial { .. } => {},
                },
                TextureId::User(_) => {},
            }
            i = i + 1;
        }
        proof {
            assert(sm.skip(sm.len() as int) =~= Seq::<(TextureId, ChangeModel)>::empty());
            assert(r@.map_values(|c: ColorImage| c@) + Seq::<ImageModel>::empty() =~= r@.map_values(
                |c: ColorImage| c@));
        }
        r
    }
}

} // verus!
