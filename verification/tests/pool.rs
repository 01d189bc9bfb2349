use texture_pool::delta::{TextureChange, TextureId, TexturesDelta};
use texture_pool::image::{Color32, ColorImage};
use texture_pool::texture::{PatchOutcome, TexturePool};

fn px(v: u8) -> Color32 {
    Color32 { r: v, g: v, b: v, a: 255 }
}

fn solid(width: usize, height: usize, v: u8) -> ColorImage {
    ColorImage { width, height, pixels: vec![px(v); width * height] }
}

fn handles(n: usize) -> Vec<(String, String)> {
    (0..n).map(|i| (format!("tex{i}"), format!("srv{i}"))).collect()
}

fn full(id: u64, image: ColorImage) -> (TextureId, TextureChange) {
    (TextureId::Managed(id), TextureChange::Full(image))
}

fn patch(id: u64, x: usize, y: usize, image: ColorImage) -> (TextureId, TextureChange) {
    (TextureId::Managed(id), TextureChange::Partial { pos_x: x, pos_y: y, image })
}

#[test]
fn full_replace_creates_texture() {
    let mut pool: TexturePool<String, String> = TexturePool::new();
    let delta = TexturesDelta { set: vec![full(7, solid(2, 3, 9))], free: vec![] };
    let imgs = delta.creations();
    assert_eq!(imgs.len(), 1);
    assert_eq!(imgs[0].width, 2);
    assert_eq!(imgs[0].height, 3);
    let outcomes = pool.update(delta, handles(1));
    assert_eq!(outcomes, vec![]);
    assert_eq!(pool.get_srv(TextureId::Managed(7)), Some(&"srv0".to_string()));
    assert_eq!(pool.get_tex(7), Some(&"tex0".to_string()));
    assert_eq!(pool.get_pixels(7).unwrap(), &vec![px(9); 6]);
    assert_eq!(pool.texture_size(7), Some((2, 3)));
}

#[test]
fn last_full_replace_wins() {
    // A later full replace leaves no residue of the earlier image.
    let mut pool: TexturePool<String, String> = TexturePool::new();
    let delta = TexturesDelta {
        set: vec![full(1, solid(2, 2, 10)), full(1, solid(3, 1, 20))],
        free: vec![],
    };
    pool.update(delta, handles(2));
    assert_eq!(pool.get_pixels(1).unwrap(), &vec![px(20); 3]);
    assert_eq!(pool.texture_size(1), Some((3, 1)));
    assert_eq!(pool.get_srv(TextureId::Managed(1)), Some(&"srv1".to_string()));
}

#[test]
fn partial_patch_leaves_outside_pixels_untouched() {
    // A 4x4 all-black texture patched with a 2x2 all-white block at (1, 1):
    // row 0 and column 0 stay black, the 2x2 block turns white, rest black.
    let mut pool: TexturePool<String, String> = TexturePool::new();
    pool.update(
        TexturesDelta { set: vec![full(0, solid(4, 4, 0))], free: vec![] },
        handles(1),
    );
    let outcomes = pool.update(
        TexturesDelta { set: vec![patch(0, 1, 1, solid(2, 2, 255))], free: vec![] },
        vec![],
    );
    assert_eq!(outcomes, vec![PatchOutcome::Applied(0)]);
    let pixels = pool.get_pixels(0).unwrap();
    for y in 0..4 {
        for x in 0..4 {
            let expected = if (1..3).contains(&x) && (1..3).contains(&y) { px(255) } else { px(0) };
            assert_eq!(pixels[y * 4 + x], expected, "pixel at ({x}, {y})");
        }
    }
    // The handles of the patched texture are unchanged.
    assert_eq!(pool.get_srv(TextureId::Managed(0)), Some(&"srv0".to_string()));
}

#[test]
fn patch_pixels_come_from_patch_source() {
    let mut pool: TexturePool<String, String> = TexturePool::new();
    pool.update(
        TexturesDelta { set: vec![full(0, solid(3, 2, 1))], free: vec![] },
        handles(1),
    );
    let patch_img = ColorImage { width: 2, height: 1, pixels: vec![px(40), px(50)] };
    pool.update(
        TexturesDelta { set: vec![patch(0, 1, 1, patch_img)], free: vec![] },
        vec![],
    );
    let pixels = pool.get_pixels(0).unwrap();
    assert_eq!(
        pixels,
        &vec![px(1), px(1), px(1), px(1), px(40), px(50)]
    );
}

#[test]
fn patch_covering_whole_texture() {
    let mut pool: TexturePool<String, String> = TexturePool::new();
    pool.update(
        TexturesDelta { set: vec![full(0, solid(2, 2, 3))], free: vec![] },
        handles(1),
    );
    pool.update(
        TexturesDelta { set: vec![patch(0, 0, 0, solid(2, 2, 8))], free: vec![] },
        vec![],
    );
    assert_eq!(pool.get_pixels(0).unwrap(), &vec![px(8); 4]);
}

#[test]
fn patch_in_far_corner() {
    let mut pool: TexturePool<String, String> = TexturePool::new();
    pool.update(
        TexturesDelta { set: vec![full(0, solid(3, 3, 0))], free: vec![] },
        handles(1),
    );
    pool.update(
        TexturesDelta { set: vec![patch(0, 2, 2, solid(1, 1, 9))], free: vec![] },
        vec![],
    );
    let pixels = pool.get_pixels(0).unwrap();
    for i in 0..9 {
        assert_eq!(pixels[i], if i == 8 { px(9) } else { px(0) });
    }
}

#[test]
fn free_removes_texture_and_later_patch_is_dropped() {
    let mut pool: TexturePool<String, String> = TexturePool::new();
    pool.update(
        TexturesDelta { set: vec![full(5, solid(2, 2, 1))], free: vec![] },
        handles(1),
    );
    pool.update(TexturesDelta { set: vec![], free: vec![TextureId::Managed(5)] }, vec![]);
    assert_eq!(pool.get_srv(TextureId::Managed(5)), None);
    assert_eq!(pool.get_pixels(5), None);
    // A patch aimed at the freed id is dropped, not an error.
    let outcomes = pool.update(
        TexturesDelta { set: vec![patch(5, 0, 0, solid(1, 1, 2))], free: vec![] },
        vec![],
    );
    assert_eq!(outcomes, vec![PatchOutcome::Dropped(5)]);
    assert_eq!(pool.get_srv(TextureId::Managed(5)), None);
}

#[test]
fn patch_to_never_created_texture_is_dropped() {
    let mut pool: TexturePool<String, String> = TexturePool::new();
    let outcomes = pool.update(
        TexturesDelta { set: vec![patch(9, 0, 0, solid(1, 1, 2))], free: vec![] },
        vec![],
    );
    assert_eq!(outcomes, vec![PatchOutcome::Dropped(9)]);
}

#[test]
fn zero_area_full_replace_creates_nothing() {
    let mut pool: TexturePool<String, String> = TexturePool::new();
    let delta = TexturesDelta {
        set: vec![full(1, solid(0, 4, 0)), full(2, solid(4, 0, 0))],
        free: vec![],
    };
    // No GPU texture is asked for: no device call would be attempted.
    assert_eq!(delta.creations().len(), 0);
    pool.update(delta, vec![]);
    assert_eq!(pool.get_srv(TextureId::Managed(1)), None);
    assert_eq!(pool.get_srv(TextureId::Managed(2)), None);
}

#[test]
fn user_ids_in_delta_are_ignored() {
    let mut pool: TexturePool<String, String> = TexturePool::new();
    let tid = pool.register_native_texture("native".to_string(), "view".to_string());
    assert_eq!(tid, TextureId::User(0));
    // Set entries and free entries with User ids never touch the registry,
    // and a User-targeted patch leaves no outcome either.
    let delta = TexturesDelta {
        set: vec![
            (TextureId::User(0), TextureChange::Full(solid(2, 2, 1))),
            (
                TextureId::User(0),
                TextureChange::Partial { pos_x: 0, pos_y: 0, image: solid(1, 1, 2) },
            ),
        ],
        free: vec![TextureId::User(0)],
    };
    assert_eq!(delta.creations().len(), 0);
    let outcomes = pool.update(delta, vec![]);
    assert_eq!(outcomes, vec![]);
    assert_eq!(pool.get_srv(TextureId::User(0)), Some(&"view".to_string()));
}

#[test]
fn native_ids_strictly_increase_from_zero() {
    let mut pool: TexturePool<u64, u64> = TexturePool::new();
    let a = pool.register_native_texture(100, 200);
    let b = pool.register_native_texture(101, 201);
    let c = pool.register_native_texture(102, 202);
    assert_eq!(a, TextureId::User(0));
    assert_eq!(b, TextureId::User(1));
    assert_eq!(c, TextureId::User(2));
    // Removal neither reuses nor renumbers.
    assert_eq!(pool.remove_native_texture(&TextureId::User(1)), Some(101));
    let d = pool.register_native_texture(103, 203);
    assert_eq!(d, TextureId::User(3));
    assert_eq!(pool.get_srv(TextureId::User(0)), Some(&200));
    assert_eq!(pool.get_srv(TextureId::User(2)), Some(&202));
}

#[test]
fn remove_native_returns_registered_texture() {
    let mut pool: TexturePool<String, String> = TexturePool::new();
    pool.register_native_texture("first".to_string(), "v0".to_string());
    pool.register_native_texture("second".to_string(), "v1".to_string());
    assert_eq!(
        pool.remove_native_texture(&TextureId::User(0)),
        Some("first".to_string())
    );
    // A second removal of the same id finds nothing.
    assert_eq!(pool.remove_native_texture(&TextureId::User(0)), None);
    // The other entry is untouched.
    assert_eq!(
        pool.remove_native_texture(&TextureId::User(1)),
        Some("second".to_string())
    );
}

#[test]
fn remove_native_on_absent_id_is_empty() {
    let mut pool: TexturePool<String, String> = TexturePool::new();
    assert_eq!(pool.remove_native_texture(&TextureId::User(42)), None);
}

#[test]
fn lookup_on_empty_pool_is_empty() {
    let pool: TexturePool<String, String> = TexturePool::new();
    assert_eq!(pool.get_srv(TextureId::Managed(0)), None);
    assert_eq!(pool.get_srv(TextureId::User(0)), None);
    assert_eq!(pool.get_tex(0), None);
    assert_eq!(pool.texture_size(0), None);
}

#[test]
fn patch_created_in_same_batch() {
    // A full replace followed by a patch on the same id, in one batch:
    // the patch lands on the texture created earlier in the batch.
    let mut pool: TexturePool<String, String> = TexturePool::new();
    let outcomes = pool.update(
        TexturesDelta {
            set: vec![full(3, solid(2, 2, 0)), patch(3, 0, 0, solid(1, 1, 7))],
            free: vec![],
        },
        handles(1),
    );
    assert_eq!(outcomes, vec![PatchOutcome::Applied(3)]);
    assert_eq!(
        pool.get_pixels(3).unwrap(),
        &vec![px(7), px(0), px(0), px(0)]
    );
}

#[test]
fn set_runs_before_free() {
    // The free list is applied after the whole set list: a texture created
    // and freed in the same batch is gone afterwards.
    let mut pool: TexturePool<String, String> = TexturePool::new();
    pool.update(
        TexturesDelta {
            set: vec![full(4, solid(1, 1, 5))],
            free: vec![TextureId::Managed(4)],
        },
        handles(1),
    );
    assert_eq!(pool.get_srv(TextureId::Managed(4)), None);
}

#[test]
fn clone_copies_image_exactly() {
    let img = ColorImage { width: 2, height: 1, pixels: vec![px(1), px(2)] };
    let copy = img.clone();
    assert_eq!(copy.width, 2);
    assert_eq!(copy.height, 1);
    assert_eq!(copy.pixels, img.pixels);
}
