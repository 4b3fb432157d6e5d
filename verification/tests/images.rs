use paddock_metal::qwen35::chain::{kept_lengths, prefix_chain, Link};
use paddock_metal::qwen35::image::{any_inside, ended_images, prefix_images_match, ImageKey};
use std::sync::Arc;

fn key(rgb: Vec<u8>, offset: usize) -> ImageKey {
    ImageKey {
        digest: *blake3::hash(&rgb).as_bytes(),
        hash: 7,
        rgb: Arc::new(rgb),
        w: 1,
        h: 1,
        offset,
        nx: 4,
        ny: 4,
    }
}

#[test]
fn durable_image_identity_commits_pixels_geometry_and_position() {
    let a = key(vec![1, 2, 3], 64);
    let mut b = a.copy();
    b.digest = *blake3::hash(&[1, 2, 4]).as_bytes();
    b.rgb = Arc::new(vec![1, 2, 4]);
    assert_ne!(
        a.identity(),
        b.identity(),
        "even a legacy 64-bit hash collision cannot alias"
    );
    let mut moved = a.copy();
    moved.offset += 16;
    assert_ne!(a.identity(), moved.identity());
    let mut reshaped = a.copy();
    reshaped.nx = 2;
    reshaped.ny = 8;
    assert_ne!(a.identity(), reshaped.identity());
    assert!(
        prefix_images_match(&vec![a.copy()], &vec![b.copy()], 64),
        "different future images do not poison an earlier text prefix"
    );
    assert!(
        !prefix_images_match(&vec![a.copy()], &vec![a.copy()], 65),
        "never cut inside an image"
    );
    assert!(prefix_images_match(&vec![a.copy()], &vec![a.copy()], 80));
    assert!(!prefix_images_match(&vec![a], &vec![b], 80));
}

#[test]
fn identity_is_digest_then_five_counts() {
    let a = key(vec![1, 2, 3], 64);
    let bytes = a.identity();
    assert_eq!(bytes.len(), 72);
    assert_eq!(bytes[..32], a.digest);
    let words: Vec<u64> = bytes[32..]
        .chunks(8)
        .map(|c| u64::from_le_bytes(c.try_into().unwrap()))
        .collect();
    assert_eq!(words, [1, 1, 64, 4, 4]);
}

#[test]
fn matching_is_reflexive_and_symmetric() {
    let (a, b) = (key(vec![1, 2, 3], 64), key(vec![4, 5, 6], 96));
    for cut in [0, 64, 80, 96, 112] {
        let (x, y) = (vec![a.copy(), b.copy()], vec![a.copy()]);
        assert!(prefix_images_match(&x, &x, cut));
        assert_eq!(prefix_images_match(&x, &y, cut), prefix_images_match(&y, &x, cut));
    }
    assert!(prefix_images_match(&vec![a.copy(), b.copy()], &vec![a.copy()], 96));
    assert!(!prefix_images_match(&vec![a.copy(), b], &vec![a], 112));
}

#[test]
fn images_that_end_before_a_cut_are_kept() {
    let list = vec![key(vec![1, 2, 3], 16), key(vec![4, 5, 6], 64)];
    assert!(any_inside(&list, 17));
    assert!(!any_inside(&list, 16));
    assert!(!any_inside(&list, 32));
    assert_eq!(ended_images(&list, 32).len(), 1);
    assert_eq!(ended_images(&list, 79).len(), 1);
    assert_eq!(ended_images(&list, 80).len(), 2);
}

#[test]
fn boundaries_spare_images() {
    let tokens: Vec<u32> = (0..200).collect();
    assert_eq!(kept_lengths(&tokens, &vec![]), (3..=12).map(|i| i * 16).collect::<Vec<usize>>());
    let list = vec![key(vec![1, 2, 3], 40)];
    // The image holds rows 40 to 55, so the boundary at 48 falls inside.
    assert!(!kept_lengths(&tokens, &list).contains(&48));
    assert!(kept_lengths(&tokens, &list).contains(&64));
}

#[test]
fn chains_differ_where_their_images_do() {
    let tokens: Vec<u32> = (0..96).collect();
    let plain = prefix_chain(&tokens, &vec![]);
    assert!(plain.iter().all(|l| matches!(l, Link::Page(_))));
    let a = prefix_chain(&tokens, &vec![key(vec![1, 2, 3], 16)]);
    let b = prefix_chain(&tokens, &vec![key(vec![3, 2, 1], 16)]);
    assert_ne!(format!("{a:?}"), format!("{b:?}"));
    assert_ne!(format!("{a:?}"), format!("{plain:?}"));
}

#[test]
fn rows_of_an_image_are_counted_from_its_offset() {
    let a = key(vec![1, 2, 3], 64);
    assert_eq!(a.end(), 80);
    assert!(a.starts_in(64, 80) && !a.starts_in(65, 80) && !a.starts_in(48, 64));
    assert!(a.inside(65) && a.inside(79) && !a.inside(64) && !a.inside(80));
    let mut moved = a.copy();
    moved.offset = 96;
    assert!(a.same_image(&moved) && !a.same(&moved));
}
