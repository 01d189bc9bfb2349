//! Laws of the pool, stated over the same spec functions its contracts use
//! and proved once and for all inputs.

use vstd::prelude::*;
use vstd::arithmetic::div_mod::{
    lemma_fundamental_div_mod_converse_div, lemma_fundamental_div_mod_converse_mod,
};
use crate::delta::{spec_creations, ChangeModel, TextureId};
use crate::image::{spec_patched, Color32, ImageModel};
use crate::texture::{
    spec_apply_free, spec_apply_set, spec_patch_log, spec_step_full, spec_step_patch, PatchOutcome,
    TexModel,
};

verus! {

/// A partial patch changes exactly the pixels inside the patched rectangle:
/// at column `x`, row `y` of a buffer of row length `w`, the patched buffer
/// holds the patch's own pixel where `(x, y)` lies inside the rectangle, and
/// the pixel's old value everywhere else.
pub proof fn lemma_patched_pixel(
    base: Seq<Color32>,
    w: nat,
    img: ImageModel,
    px: nat,
    py: nat,
    x: int,
    y: int,
)
    requires
        0 <= x < w,
        0 <= y,
        y * w + x < base.len(),
    ensures
        spec_patched(base, w, img, px, py)[y * (w as int) + x] == if px <= x < px + img.width && py
            <= y < py + img.height {
            img.pixels[(y - py) * (img.width as int) + (x - px)]
        } else {
            base[y * (w as int) + x]
        },
{
    let wi = w as int;
    let j = y * wi + x;
    lemma_fundamental_div_mod_converse_mod(j, wi, y, x);
    lemma_fundamental_div_mod_converse_div(j, wi, y, x);
}

/// A partial patch applied to a freshly created texture: after a full
/// replace with `img` and then a patch with `p` at `(px, py)`, every pixel
/// strictly outside the patched rectangle is exactly what `img` held there,
/// and every pixel inside is the patch's own pixel.
pub proof fn lemma_create_then_patch_pixel<T, S>(
    m: Map<u64, TexModel<T, S>>,
    id: u64,
    img: ImageModel,
    h: (T, S),
    p: ImageModel,
    px: nat,
    py: nat,
    x: int,
    y: int,
)
    requires
        0 <= x < img.width,
        0 <= y,
        y * img.width + x < img.pixels.len(),
    ensures
        ({
            let after = spec_step_patch(spec_step_full(m, id, img, h), id, px, py, p);
            &&& after.contains_key(id)
            &&& after[id].pixels[y * (img.width as int) + x] == if px <= x < px + p.width && py
                <= y < py + p.height {
                p.pixels[(y - py) * (p.width as int) + (x - px)]
            } else {
                img.pixels[y * (img.width as int) + x]
            }
        }),
{
    lemma_patched_pixel(img.pixels, img.width, p, px, py, x, y);
}

/// The `set` entries that replace the texture under `id` with each image of
/// `imgs` in turn.
pub open spec fn full_entries(id: u64, imgs: Seq<ImageModel>) -> Seq<(TextureId, ChangeModel)> {
    imgs.map_values(|img: ImageModel| (TextureId::Managed(id), ChangeModel::Full(img)))
}

/// After any sequence of full replaces of non-zero area on one id, the
/// texture under that id holds exactly the last replace's pixels and
/// dimensions: nothing of the earlier images is left.
pub proof fn lemma_full_replace_last<T, S>(
    m: Map<u64, TexModel<T, S>>,
    id: u64,
    imgs: Seq<ImageModel>,
    handles: Seq<(T, S)>,
)
    requires
        imgs.len() > 0,
        handles.len() >= imgs.len(),
        forall|i: int| 0 <= i < imgs.len() ==> (#[trigger] imgs[i]).width > 0 && imgs[i].height > 0,
    ensures
        spec_apply_set(m, full_entries(id, imgs), handles).contains_key(id),
        spec_apply_set(m, full_entries(id, imgs), handles)[id].pixels == imgs.last().pixels,
        spec_apply_set(m, full_entries(id, imgs), handles)[id].width == imgs.last().width,
    decreases imgs.len(),
{
    let entries = full_entries(id, imgs);
    assert(entries[0] == (TextureId::Managed(id), ChangeModel::Full(imgs[0])));
    assert(entries.drop_first() =~= full_entries(id, imgs.drop_first()));
    let m1 = spec_step_full(m, id, imgs[0], handles[0]);
    if imgs.len() == 1 {
        assert(full_entries(id, imgs.drop_first()).len() == 0);
        assert(spec_apply_set(m1, full_entries(id, imgs.drop_first()), handles.drop_first())
            == m1);
        assert(spec_apply_set(m, entries, handles) == m1);
    } else {
        lemma_full_replace_last(m1, id, imgs.drop_first(), handles.drop_first());
        assert(imgs.drop_first().last() == imgs.last());
    }
}

/// The free list only ever removes textures: an id with no texture before it
/// runs has none after it either.
pub proof fn lemma_free_adds_nothing<T, S>(
    m: Map<u64, TexModel<T, S>>,
    free: Seq<TextureId>,
    id: u64,
)
    requires
        !m.contains_key(id),
    ensures
        !spec_apply_free(m, free).contains_key(id),
    decreases free.len(),
{
    if free.len() > 0 {
        match free[0] {
            TextureId::Managed(k) => lemma_free_adds_nothing(m.remove(k), free.drop_first(), id),
            TextureId::User(_) => lemma_free_adds_nothing(m, free.drop_first(), id),
        }
    }
}

/// Freeing a managed id removes its texture: after a `free` list that
/// contains `Managed(id)`, no texture with that id is left, whatever else
/// the list holds. A later lookup on that id therefore finds nothing, and a
/// later partial patch on it is dropped (see
/// [`lemma_patch_missing_dropped`]), not an error.
pub proof fn lemma_free_removes<T, S>(m: Map<u64, TexModel<T, S>>, free: Seq<TextureId>, id: u64)
    requires
        free.contains(TextureId::Managed(id)),
    ensures
        !spec_apply_free(m, free).contains_key(id),
    decreases free.len(),
{
    if free[0] == TextureId::Managed(id) {
        lemma_free_adds_nothing(m.remove(id), free.drop_first(), id);
    } else {
        let i = choose|i: int| 0 <= i < free.len() && free[i] == TextureId::Managed(id);
        assert(free.drop_first()[i - 1] == TextureId::Managed(id));
        assert(free.drop_first().contains(TextureId::Managed(id)));
        match free[0] {
            TextureId::Managed(k) => lemma_free_removes(m.remove(k), free.drop_first(), id),
            TextureId::User(_) => lemma_free_removes(m, free.drop_first(), id),
        }
    }
}

/// A partial patch aimed at an id with no texture changes nothing and is
/// reported as dropped — never as a failure.
pub proof fn lemma_patch_missing_dropped<T, S>(
    m: Map<u64, TexModel<T, S>>,
    id: u64,
    px: nat,
    py: nat,
    img: ImageModel,
    handles: Seq<(T, S)>,
)
    requires
        !m.contains_key(id),
    ensures
        spec_apply_set(
            m,
            seq![(TextureId::Managed(id), (ChangeModel::Partial { pos_x: px, pos_y: py, image: img }))],
            handles,
        ) == m,
        spec_patch_log(
            m,
            seq![(TextureId::Managed(id), (ChangeModel::Partial { pos_x: px, pos_y: py, image: img }))],
            handles,
        ) == seq![PatchOutcome::Dropped(id)],
{
    let entries = seq![
        (TextureId::Managed(id), (ChangeModel::Partial { pos_x: px, pos_y: py, image: img })),
    ];
    assert(entries.drop_first() =~= Seq::<(TextureId, ChangeModel)>::empty());
    assert(spec_step_patch(m, id, px, py, img) == m);
    assert(spec_apply_set(m, Seq::<(TextureId, ChangeModel)>::empty(), handles) == m);
    assert(spec_patch_log(m, Seq::<(TextureId, ChangeModel)>::empty(), handles) == Seq::<
        PatchOutcome,
    >::empty());
    assert(seq![PatchOutcome::Dropped(id)] + Seq::<PatchOutcome>::empty() =~= seq![
        PatchOutcome::Dropped(id),
    ]);
}

/// A zero-width or zero-height full replace creates nothing: the managed map
/// is unchanged, and the batch asks for no GPU texture to be built for it.
pub proof fn lemma_zero_area_noop<T, S>(
    m: Map<u64, TexModel<T, S>>,
    id: u64,
    img: ImageModel,
    handles: Seq<(T, S)>,
)
    requires
        img.width == 0 || img.height == 0,
    ensures
        spec_apply_set(m, seq![(TextureId::Managed(id), ChangeModel::Full(img))], handles) == m,
        spec_creations(seq![(TextureId::Managed(id), ChangeModel::Full(img))]) == Seq::<
            ImageModel,
        >::empty(),
{
    let entries = seq![(TextureId::Managed(id), ChangeModel::Full(img))];
    assert(entries.drop_first() =~= Seq::<(TextureId, ChangeModel)>::empty());
    assert(spec_apply_set(m, Seq::<(TextureId, ChangeModel)>::empty(), handles) == m);
    assert(spec_creations(Seq::<(TextureId, ChangeModel)>::empty()) == Seq::<ImageModel>::empty());
}

/// The id handed out by the `k`-th native registration after the counter
/// stood at `c`: `register_native_texture` returns `User` of the counter and
/// advances the counter by exactly one, so `k` registrations in a row return
/// `native_id_at(c, 0), ..., native_id_at(c, k - 1)`.
pub open spec fn native_id_at(c: u64, k: nat) -> TextureId {
    TextureId::User((c + k) as u64)
}

/// Native ids are strictly increasing and pairwise distinct: of two
/// registrations the later gets the strictly larger number, and from a fresh
/// pool (counter 0) the ids start at `User(0)`. Removal never touches the
/// counter, so a removed id's number is never handed out again.
pub proof fn lemma_native_ids_strictly_increasing(c: u64, i: nat, j: nat)
    requires
        i < j,
        c + j <= u64::MAX,
    ensures
        native_id_at(c, i) is User,
        native_id_at(c, i)->User_0 < native_id_at(c, j)->User_0,
        native_id_at(c, i) != native_id_at(c, j),
        native_id_at(0, i) == TextureId::User(i as u64),
{
}

/// Removing one native id removes exactly that id: the first removal hands
/// back the registered pair's texture (the contract of
/// `remove_native_texture` returns `native()[id].0`, the very value stored at
/// registration), a second removal of the same id finds nothing, and every
/// other id keeps its entry untouched.
pub proof fn lemma_remove_native_twice<T, S>(native: Map<u64, (T, S)>, id: u64)
    ensures
        !native.remove(id).contains_key(id),
        forall|other: u64|
            other != id ==> native.remove(id).contains_key(other) == native.contains_key(other),
        forall|other: u64|
            other != id && native.contains_key(other) ==> native.remove(id)[other]
                == native[other],
{
}

} // verus!
