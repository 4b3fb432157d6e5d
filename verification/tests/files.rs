use paddock_metal::error::{Fault, MetalError};
use paddock_metal::files::checkpoint_files;

fn names(list: &[&str]) -> Vec<Vec<u8>> {
    list.iter().map(|s| s.as_bytes().to_vec()).collect()
}

#[test]
fn tables_and_shards_are_sorted() {
    let listing = names(&["b.safetensors", "README.md", "config.json", "a.safetensors", ".json", "x.jsonl"]);
    assert_eq!(
        checkpoint_files(listing).unwrap(),
        names(&["a.safetensors", "b.safetensors", "config.json"])
    );
}

#[test]
fn the_listing_order_does_not_matter() {
    let a = names(&["m-10.safetensors", "m-2.safetensors", "m.json", "é.json"]);
    let mut b = a.clone();
    b.reverse();
    let sorted = checkpoint_files(a).unwrap();
    assert_eq!(sorted, checkpoint_files(b).unwrap());
    let mut want = sorted.clone();
    want.sort();
    assert_eq!(sorted, want);
}

#[test]
fn an_empty_checkpoint_is_refused() {
    let refused = Some(MetalError::Model(Fault::Files));
    assert_eq!(checkpoint_files(vec![]).err(), refused);
    assert_eq!(checkpoint_files(names(&["weights.gguf", ".safetensors"])).err(), refused);
}

#[test]
fn names_need_not_be_text() {
    let odd = b"w\xff.safetensors".to_vec();
    let listing = vec![odd.clone(), b"w\xff.bin".to_vec(), b"config.json".to_vec()];
    assert_eq!(checkpoint_files(listing).unwrap(), [b"config.json".to_vec(), odd]);
}
