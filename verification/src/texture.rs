//! The texture pool: GPU textures owned by the pool and driven by the delta
//! stream, plus a registry of caller-owned native textures.
//!
//! The pool is generic over the GPU handle types: `T` is a texture object
//! handle and `S` a shader-resource view handle. The device that builds such
//! handles lives outside the library; the pool stores the handles it is given
//! and computes exactly which pixels every managed texture holds.

use vstd::prelude::*;
use std::collections::HashMap;
use crate::delta::{set_models, ChangeModel, TextureChange, TextureId, TexturesDelta};
use crate::image::{apply_patch, spec_patched, Color32, ImageModel};
use vstd::arithmetic::div_mod::{lemma_fundamental_div_mod, lemma_mod_multiples_basic};
use vstd::arithmetic::mul::{lemma_mul_inequality, lemma_mul_is_commutative};

verus! {

broadcast use vstd::std_specs::hash::group_hash_axioms;

/// A texture owned by the pool: the GPU texture object, the shader-resource
/// view derived from it, and a CPU-side shadow of its pixels, kept equal to
/// the last value written to the GPU buffer so that a partial patch can
/// restore the pixels outside the patched rectangle.
pub struct ManagedTexture<T, S> {
    pub tex: T,
    pub srv: S,
    pub width: usize,
    pub pixels: Vec<Color32>,
}

/// The mathematical value of a [`ManagedTexture`].
#[verifier::ext_equal]
pub ghost struct TexModel<T, S> {
    pub tex: T,
    pub srv: S,
    pub width: nat,
    pub pixels: Seq<Color32>,
}

impl<T, S> TexModel<T, S> {
    /// The texture's height in rows.
    pub open spec fn height(self) -> int {
        self.pixels.len() as int / self.width as int
    }

    /// A positive row length that divides the pixel count.
    pub open spec fn wf(self) -> bool {
        self.width > 0 && self.pixels.len() % self.width == 0
    }
}

impl<T, S> View for ManagedTexture<T, S> {
    type V = TexModel<T, S>;

    open spec fn view(&self) -> TexModel<T, S> {
        TexModel {
            tex: self.tex,
            srv: self.srv,
            width: self.width as nat,
            pixels: self.pixels@,
        }
    }
}

/// What became of one partial patch of a batch: applied to the texture with
/// that id, or dropped because no such texture existed when it was reached.
#[derive(Clone, Copy, PartialEq, Eq, Structural, Debug)]
pub enum PatchOutcome {
    Applied(u64),
    Dropped(u64),
}

/// A full replace: the texture under `id` becomes a brand-new texture made of
/// the handle pair `h` and the pixels of `img`, whatever was there before.
pub open spec fn spec_step_full<T, S>(
    m: Map<u64, TexModel<T, S>>,
    id: u64,
    img: ImageModel,
    h: (T, S),
) -> Map<u64, TexModel<T, S>> {
    m.insert(id, TexModel { tex: h.0, srv: h.1, width: img.width, pixels: img.pixels })
}

/// A partial patch: the texture under `id`, if any, keeps its handles and its
/// row length and has `img` overlaid at `(px, py)`; if no texture has that
/// id, the patch is dropped and the map is unchanged.
pub open spec fn spec_step_patch<T, S>(
    m: Map<u64, TexModel<T, S>>,
    id: u64,
    px: nat,
    py: nat,
    img: ImageModel,
) -> Map<u64, TexModel<T, S>> {
    if m.contains_key(id) {
        let t = m[id];
        m.insert(
            id,
            TexModel {
                tex: t.tex,
                srv: t.srv,
                width: t.width,
                pixels: spec_patched(t.pixels, t.width, img, px, py),
            },
        )
    } else {
        m
    }
}

/// The managed map after the ordered `set` list of a batch, consuming one
/// handle pair from `handles` for every full replace with non-zero area.
/// Entries with a `User` id are ignored: native textures are never targets
/// of the delta stream. Zero-area full replaces are skipped entirely.
pub open spec fn spec_apply_set<T, S>(
    m: Map<u64, TexModel<T, S>>,
    entries: Seq<(TextureId, ChangeModel)>,
    handles: Seq<(T, S)>,
) -> Map<u64, TexModel<T, S>>
    decreases entries.len(),
{
    if entries.len() == 0 {
        m
    } else {
        let rest = entries.drop_first();
        match entries[0].0 {
            TextureId::User(_) => spec_apply_set(m, rest, handles),
            TextureId::Managed(id) => match entries[0].1 {
                ChangeModel::Full(img) => if img.width > 0 && img.height > 0 {
                    spec_apply_set(spec_step_full(m, id, img, handles[0]), rest, handles.drop_first())
                } else {
                    spec_apply_set(m, rest, handles)
                },
                ChangeModel::Partial { pos_x, pos_y, image } => spec_apply_set(
                    spec_step_patch(m, id, pos_x, pos_y, image),
                    rest,
                    handles,
                ),
            },
        }
    }
}

/// The `set` list is admissible against `m`: every image that will actually
/// be used covers its declared dimensions, a handle pair is available for
/// every full replace with non-zero area, and every partial patch that finds
/// its texture fits inside that texture's bounds at the moment it is
/// applied. Entries the pool skips (zero-area replaces, patches whose id has
/// no texture, `User`-targeted entries) are not constrained.
pub open spec fn spec_set_ok<T, S>(
    m: Map<u64, TexModel<T, S>>,
    entries: Seq<(TextureId, ChangeModel)>,
    handles: Seq<(T, S)>,
) -> bool
    decreases entries.len(),
{
    entries.len() == 0 || {
        let rest = entries.drop_first();
        match entries[0].0 {
            TextureId::User(_) => spec_set_ok(m, rest, handles),
            TextureId::Managed(id) => match entries[0].1 {
                ChangeModel::Full(img) => if img.width > 0 && img.height > 0 {
                    img.wf() && handles.len() > 0 && spec_set_ok(
                        spec_step_full(m, id, img, handles[0]),
                        rest,
                        handles.drop_first(),
                    )
                } else {
                    spec_set_ok(m, rest, handles)
                },
                ChangeModel::Partial { pos_x, pos_y, image } => {
                    &&& (m.contains_key(id) ==> image.wf() && pos_x + image.width <= m[id].width
                        && pos_y + image.height <= m[id].height())
                    &&& spec_set_ok(spec_step_patch(m, id, pos_x, pos_y, image), rest, handles)
                },
            },
        }
    }
}

/// The outcome of every partial patch of the `set` list, in order.
pub open spec fn spec_patch_log<T, S>(
    m: Map<u64, TexModel<T, S>>,
    entries: Seq<(TextureId, ChangeModel)>,
    handles: Seq<(T, S)>,
) -> Seq<PatchOutcome>
    decreases entries.len(),
{
    if entries.len() == 0 {
        Seq::empty()
    } else {
        let rest = entries.drop_first();
        match entries[0].0 {
            TextureId::User(_) => spec_patch_log(m, rest, handles),
            TextureId::Managed(id) => match entries[0].1 {
                ChangeModel::Full(img) => if img.width > 0 && img.height > 0 {
                    spec_patch_log(spec_step_full(m, id, img, handles[0]), rest, handles.drop_first())
                } else {
                    spec_patch_log(m, rest, handles)
                },
                ChangeModel::Partial { pos_x, pos_y, image } => (if m.contains_key(id) {
                    seq![PatchOutcome::Applied(id)]
                } else {
                    seq![PatchOutcome::Dropped(id)]
                }) + spec_patch_log(spec_step_patch(m, id, pos_x, pos_y, image), rest, handles),
            },
        }
    }
}

/// The managed map after the `free` list of a batch: every `Managed` id in
/// the list is removed; `User` ids are ignored, since the pool never frees
/// native textures itself.
pub open spec fn spec_apply_free<T, S>(
    m: Map<u64, TexModel<T, S>>,
    free: Seq<TextureId>,
) -> Map<u64, TexModel<T, S>>
    decreases free.len(),
{
    if free.len() == 0 {
        m
    } else {
        let rest = free.drop_first();
        match free[0] {
            TextureId::Managed(id) => spec_apply_free(m.remove(id), rest),
            TextureId::User(_) => spec_apply_free(m, rest),
        }
    }
}

/// The texture pool. `pool` maps managed ids (assigned by the GUI framework)
/// to textures the pool owns outright; `native_pool` maps pool-assigned ids
/// to borrowed caller textures and the view derived for each; and
/// `next_native_idx` counts upward forever, so a native id is never reused
/// even after removal.
pub struct TexturePool<T, S> {
    pool: HashMap<u64, ManagedTexture<T, S>>,
    native_pool: HashMap<u64, (T, S)>,
    next_native_idx: u64,
}

impl<T, S> TexturePool<T, S> {
    /// The managed textures, as mathematical values.
    pub closed spec fn managed(self) -> Map<u64, TexModel<T, S>> {
        self.pool@.map_values(|t: ManagedTexture<T, S>| t@)
    }

    /// The native registry: texture handle and derived view, per id.
    pub closed spec fn native(self) -> Map<u64, (T, S)> {
        self.native_pool@
    }

    /// The id the next native registration will receive.
    pub closed spec fn next_native(self) -> u64 {
        self.next_native_idx
    }

    /// Every managed texture is well-formed, and every registered native id
    /// was handed out before the counter reached its current value.
    pub open spec fn inv(self) -> bool {
        &&& forall|id: u64|
            self.managed().contains_key(id) ==> (#[trigger] self.managed()[id]).wf()
        &&& forall|id: u64| #[trigger]
            self.native().contains_key(id) ==> id < self.next_native()
    }

    /// An empty pool: no managed textures, no native textures, and native
    /// ids starting at 0.
    pub fn new() -> (r: Self)
        ensures
            r.inv(),
            r.managed() == Map::<u64, TexModel<T, S>>::empty(),
            r.native() == Map::<u64, (T, S)>::empty(),
            r.next_native() == 0,
    {
        let r = TexturePool {
            pool: HashMap::new(),
            native_pool: HashMap::new(),
            next_native_idx: 0,
        };
        proof {
            assert(r.managed() =~= Map::<u64, TexModel<T, S>>::empty());
        }
        r
    }

    /// Looks up the shader-resource view for a texture id, dispatching on
    /// the id's tag to the matching registry. Pure lookup: absence is an
    /// expected case, never an error.
    pub fn get_srv(&self, tid: TextureId) -> (r: Option<&S>)
        ensures
            match tid {
                TextureId::Managed(id) => match r {
                    Some(s) => self.managed().contains_key(id) && *s == self.managed()[id].srv,
                    None => !self.managed().contains_key(id),
                },
                TextureId::User(id) => match r {
                    Some(s) => self.native().contains_key(id) && *s == self.native()[id].1,
                    None => !self.native().contains_key(id),
                },
            },
    {
        match tid {
            TextureId::Managed(id) => match self.pool.get(&id) {
                Some(t) => Some(&t.srv),
                None => None,
            },
            TextureId::User(id) => match self.native_pool.get(&id) {
                Some(entry) => Some(&entry.1),
                None => None,
            },
        }
    }

    /// The GPU texture handle of the managed texture with this id, if any:
    /// the target of the buffer mapping during a partial update.
    pub fn get_tex(&self, id: u64) -> (r: Option<&T>)
        ensures
            match r {
                Some(t) => self.managed().contains_key(id) && *t == self.managed()[id].tex,
                None => !self.managed().contains_key(id),
            },
    {
        match self.pool.get(&id) {
            Some(t) => Some(&t.tex),
            None => None,
        }
    }

    /// The shadow pixels of the managed texture with this id, if any: the
    /// exact contents the GPU buffer must hold after an upload.
    pub fn get_pixels(&self, id: u64) -> (r: Option<&Vec<Color32>>)
        ensures
            match r {
                Some(p) => self.managed().contains_key(id) && p@ == self.managed()[id].pixels,
                None => !self.managed().contains_key(id),
            },
    {
        match self.pool.get(&id) {
            Some(t) => Some(&t.pixels),
            None => None,
        }
    }

    /// The width and height of the managed texture with this id, if any.
    pub fn texture_size(&self, id: u64) -> (r: Option<(usize, usize)>)
        requires
            self.inv(),
        ensures
            match r {
                Some(wh) => self.managed().contains_key(id) && wh.0 == self.managed()[id].width
                    && wh.1 == self.managed()[id].height(),
                None => !self.managed().contains_key(id),
            },
    {
        match self.pool.get(&id) {
            Some(t) => {
                proof {
                    assert(self.managed().contains_key(id) && self.managed()[id] == t@);
                }
                let len = t.pixels.len();
                Some((t.width, len / t.width))
            },
            None => None,
        }
    }

    /// Processes one frame's batch of texture instructions, in order: first
    /// the `set` list, then the `free` list.
    ///
    /// `handles` supplies one GPU handle pair (texture, view) for each full
    /// replace with non-zero area, built from the images that
    /// [`TexturesDelta::creations`] lists, in the same order. A full replace
    /// installs a brand-new texture whose shadow is the image itself; a
    /// partial patch overlays its image on the existing texture's shadow and
    /// leaves every pixel outside the rectangle untouched; a patch whose id
    /// has no texture is dropped (reported in the outcomes, not an error);
    /// a zero-area full replace is skipped entirely; `User` ids in the `set`
    /// list are ignored; every `Managed` id in the `free` list is removed.
    ///
    /// Returns the outcome of every partial patch, in order, so the caller
    /// can upload the new shadow of each applied patch and log each drop.
    #[verifier::loop_isolation(false)]
    pub fn update(&mut self, delta: TexturesDelta, handles: Vec<(T, S)>) -> (outcomes: Vec<
        PatchOutcome,
    >)
        requires
            old(self).inv(),
            spec_set_ok(old(self).managed(), set_models(delta.set@), handles@),
        ensures
            final(self).inv(),
            final(self).managed() == spec_apply_free(
                spec_apply_set(old(self).managed(), set_models(delta.set@), handles@),
                delta.free@,
            ),
            final(self).native() == old(self).native(),
            final(self).next_native() == old(self).next_native(),
            outcomes@ == spec_patch_log(old(self).managed(), set_models(delta.set@), handles@),
    {
        let TexturesDelta { set: mut entries, free } = delta;
        let mut handles = handles;
        let mut outcomes: Vec<PatchOutcome> = Vec::new();
        let ghost m0 = old(self).managed();
        let ghost e0 = set_models(delta.set@);
        let ghost h0 = handles@;
        while entries.len() > 0
            invariant
                self.inv(),
                self.native() == old(self).native(),
                self.next_native() == old(self).next_native(),
                spec_set_ok(self.managed(), set_models(entries@), handles@),
                spec_apply_set(self.managed(), set_models(entries@), handles@) == spec_apply_set(
                    m0,
                    e0,
                    h0,
                ),
                outcomes@ + spec_patch_log(self.managed(), set_models(entries@), handles@)
                    == spec_patch_log(m0, e0, h0),
            decreases entries@.len(),
        {
            let ghost m_pre = self.managed();
            let ghost sm = set_models(entries@);
            let ghost hs = handles@;
            let ghost outs = outcomes@;
            let (tid, change) = entries.remove(0);
            proof {
                assert(sm[0] == (tid, change@));
                assert(set_models(entries@) =~= sm.drop_first());
            }
            match tid {
                TextureId::User(_) => {},
                TextureId::Managed(id) => match change {
                    TextureChange::Full(img) => {
                        if img.width > 0 && img.height > 0 {
                            let (tex_h, srv_h) = handles.remove(0);
                            proof {
                                assert(handles@ =~= hs.drop_first());
                            }
                            let new_tex = ManagedTexture {
                                tex: tex_h,
                                srv: srv_h,
                                width: img.width,
                                pixels: img.pixels,
                            };
                            self.pool.insert(id, new_tex);
                            proof {
                                assert(self.managed() =~= spec_step_full(
                                    m_pre,
                                    id,
                                    img@,
                                    (tex_h, srv_h),
                                ));
                                lemma_mul_is_commutative(img@.width as int, img@.height as int);
                                lemma_mod_multiples_basic(img@.height as int, img@.width as int);
                                assert forall|i: u64|
                                    self.managed().contains_key(i) implies (#[trigger] self.managed()[i]).wf() by {
                                    if i != id {
                                        assert(m_pre[i].wf());
                                    }
                                }
                            }
                        }
                    },
                    TextureChange::Partial { pos_x, pos_y, image } => {
                        match self.pool.remove(&id) {
                            Some(t) => {
                                proof {
                                    assert(m_pre.contains_key(id) && m_pre[id] == t@);
                                    assert(m_pre[id].wf());
                                }
                                let ManagedTexture { tex, srv, width, pixels: mut shadow } = t;
                                proof {
                                    let len = shadow@.len() as int;
                                    let wi = width as int;
                                    lemma_fundamental_div_mod(len, wi);
                                    lemma_mul_inequality(
                                        pos_y + image@.height as int,
                                        len / wi,
                                        wi,
                                    );
                                    lemma_mul_is_commutative(len / wi, wi);
                                }
                                apply_patch(&mut shadow, width, &image, pos_x, pos_y);
                                let patched = ManagedTexture { tex, srv, width, pixels: shadow };
                                self.pool.insert(id, patched);
                                outcomes.push(PatchOutcome::Applied(id));
                                proof {
                                    assert(self.managed() =~= spec_step_patch(
                                        m_pre,
                                        id,
                                        pos_x as nat,
                                        pos_y as nat,
                                        image@,
                                    ));
                                    assert forall|i: u64|
                                        self.managed().contains_key(i) implies (#[trigger] self.managed()[i]).wf() by {
                                        if i != id {
                                            assert(m_pre[i].wf());
                                        }
                                    }
                                    assert(outcomes@ =~= outs.push(PatchOutcome::Applied(id)));
                                    assert(outs + (seq![PatchOutcome::Applied(id)]
                                        + spec_patch_log(
                                        self.managed(),
                                        set_models(entries@),
                                        handles@,
                                    )) =~= outcomes@ + spec_patch_log(
                                        self.managed(),
                                        set_models(entries@),
                                        handles@,
                                    ));
                                }
                            },
                            None => {
                                outcomes.push(PatchOutcome::Dropped(id));
                                proof {
                                    assert(!m_pre.contains_key(id));
                                    assert(self.managed() =~= m_pre);
                                    assert(outcomes@ =~= outs.push(PatchOutcome::Dropped(id)));
                                    assert(outs + (seq![PatchOutcome::Dropped(id)]
                                        + spec_patch_log(
                                        self.managed(),
                                        set_models(entries@),
                                        handles@,
                                    )) =~= outcomes@ + spec_patch_log(
                                        self.managed(),
                                        set_models(entries@),
                                        handles@,
                                    ));
                                }
                            },
                        }
                    },
                },
            }
        }
        let ghost m_mid = self.managed();
        proof {
            assert(m_mid == spec_apply_set(m0, e0, h0));
            assert(free@.skip(0) =~= free@);
        }
        let mut j: usize = 0;
        while j < free.len()
            invariant
                j <= free@.len(),
                self.inv(),
                self.native() == old(self).native(),
                self.next_native() == old(self).next_native(),
                spec_apply_free(self.managed(), free@.skip(j as int)) == spec_apply_free(
                    m_mid,
                    free@,
                ),
            decreases free@.len() - j,
        {
            let ghost m_pre = self.managed();
            proof {
                assert(free@.skip(j as int).drop_first() =~= free@.skip(j as int + 1));
                assert(free@.skip(j as int)[0] == free@[j as int]);
            }
            match free[j] {
                TextureId::Managed(id) => {
                    self.pool.remove(&id);
                    proof {
                        assert(self.managed() =~= m_pre.remove(id));
                        assert forall|i: u64|
                            self.managed().contains_key(i) implies (#[trigger] self.managed()[i]).wf() by {
                            assert(m_pre[i].wf());
                        }
                    }
                },
                TextureId::User(_) => {},
            }
            j = j + 1;
        }
        proof {
            assert(free@.skip(free@.len() as int) =~= Seq::<TextureId>::empty());
        }
        outcomes
    }

    /// Takes a caller-supplied GPU texture and the view derived from it,
    /// stores the pair under the next native id, and returns that id tagged
    /// `User`. The counter only ever grows, so the returned id is fresh: it
    /// was never handed out before, even for since-removed textures.
    pub fn register_native_texture(&mut self, texture: T, srv: S) -> (r: TextureId)
        requires
            old(self).inv(),
            old(self).next_native() < u64::MAX,
        ensures
            final(self).inv(),
            r == TextureId::User(old(self).next_native()),
            !old(self).native().contains_key(old(self).next_native()),
            final(self).native() == old(self).native().insert(
                old(self).next_native(),
                (texture, srv),
            ),
            final(self).next_native() == old(self).next_native() + 1,
            final(self).managed() == old(self).managed(),
    {
        let id = self.next_native_idx;
        self.next_native_idx = self.next_native_idx + 1;
        self.native_pool.insert(id, (texture, srv));
        proof {
            assert forall|i: u64| self.native().contains_key(i) implies i < self.next_native() by {
                if i != id {
                    assert(old(self).native().contains_key(i));
                }
            }
            assert forall|i: u64| self.managed().contains_key(i) implies (#[trigger] self.managed()[i]).wf() by {
                assert(old(self).managed()[i].wf());
            }
        }
        TextureId::User(id)
    }

    /// Removes a native texture and hands the very texture handle that was
    /// registered back to the caller; the pool's view of it is dropped. The
    /// id must be `User`-tagged: the managed space belongs to the delta
    /// stream, and confusing the two spaces is a caller bug, rejected here
    /// before the code is ever run. An absent id is no error: the result is
    /// simply empty.
    pub fn remove_native_texture(&mut self, tid: &TextureId) -> (r: Option<T>)
        requires
            old(self).inv(),
            *tid is User,
        ensures
            final(self).inv(),
            final(self).managed() == old(self).managed(),
            final(self).next_native() == old(self).next_native(),
            match *tid {
                TextureId::User(id) => {
                    &&& final(self).native() == old(self).native().remove(id)
                    &&& match r {
                        Some(t) => old(self).native().contains_key(id) && t == old(
                            self,
                        ).native()[id].0,
                        None => !old(self).native().contains_key(id),
                    }
                },
                TextureId::Managed(_) => false,
            },
    {
        match tid {
            TextureId::Managed(_) => unreached(),
            TextureId::User(id) => match self.native_pool.remove(id) {
                Some(entry) => {
                    proof {
                        assert(self.native() =~= old(self).native().remove(*id));
                        assert forall|i: u64| self.native().contains_key(i) implies i < self.next_native() by {
                            assert(old(self).native().contains_key(i));
                        }
                        assert forall|i: u64| self.managed().contains_key(i) implies (#[trigger] self.managed()[i]).wf() by {
                            assert(old(self).managed()[i].wf());
                        }
                    }
                    Some(entry.0)
                },
                None => {
                    proof {
                        assert(self.native() =~= old(self).native().remove(*id));
                        assert forall|i: u64| self.native().contains_key(i) implies i < self.next_native() by {
                            assert(old(self).native().contains_key(i));
                        }
                        assert forall|i: u64| self.managed().contains_key(i) implies (#[trigger] self.managed()[i]).wf() by {
                            assert(old(self).managed()[i].wf());
                        }
                    }
                    None
                },
            },
        }
    }
}

} // verus!
