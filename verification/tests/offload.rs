use paddock_metal::error::{Fault, MetalError};
use paddock_metal::offload::{
    capture, capture_size, configure_kv_offload, kv_offload_config, namespace, paged_spans,
    require_unchanged, restore, Configured, FileVersion, Identity, KvOffloadConfig, Memory, Span,
};
use paddock_metal::program::Buffer;

fn span(buffer: Buffer, offset: u64, len: u64) -> Span {
    Span { buffer, offset, len }
}

#[test]
fn checkpoint_gpu_gather_and_checked_scatter_are_byte_exact() {
    let a = Buffer { id: 0, len: 16384 };
    let b = Buffer { id: 1, len: 8192 };
    let dst = Buffer { id: 2, len: 16384 };
    let async_dst = Buffer { id: 3, len: 12288 };
    let mut d = Memory {
        buffers: vec![
            (0u8..=255).cycle().take(16384).collect(),
            vec![17; 8192],
            vec![99; 16384],
            vec![0; 12288],
        ],
    };
    let runs = paged_spans(a, &vec![5, 6, 1, 2, 3, 9], 256);
    assert_eq!(
        runs.iter().map(|s| (s.offset, s.len)).collect::<Vec<_>>(),
        vec![(1280, 512), (256, 768), (2304, 256)]
    );
    let from = vec![span(a, 512, 8192), span(b, 1024, 4096)];
    let (size, regions) = capture(&from).unwrap();
    assert_eq!(size, 12288);
    assert_eq!(regions.iter().map(|r| r.at).collect::<Vec<_>>(), [0, 8192]);
    let p = d.gather(&from);
    assert_eq!(p.len(), 12288);
    assert_eq!(p[..8192], d.buffers[0][512..8704]);
    assert_eq!(p[8192..], [17; 4096]);
    assert!(restore(&vec![span(dst, 0, 4)], 12288).is_err());
    assert!(d.scatter(&vec![span(dst, 0, 4)], &p).is_err());
    assert_eq!(d.buffers[2][..4], 0x63636363u32.to_le_bytes());
    let to = vec![span(dst, 256, 8192), span(dst, 9216, 4096)];
    assert!(restore(&to, 12288).is_ok());
    d.scatter(&to, &p).unwrap();
    let got = &d.buffers[2];
    assert_eq!(&got[256..8448], &p[..8192]);
    assert_eq!(&got[9216..13312], &p[8192..]);
    assert!(got[..256].iter().all(|b| *b == 99));
    assert!(got[8448..9216].iter().all(|b| *b == 99));
    assert!(got[13312..].iter().all(|b| *b == 99));
    d.scatter(&vec![span(async_dst, 0, 12288)], &p).unwrap();
    assert_eq!(d.buffers[3], p);
    assert!(restore(&vec![span(async_dst, 0, 12289)], 12288).is_err());
    assert!(d.scatter(&vec![span(async_dst, 0, 12289)], &p).is_err());
}

#[test]
fn restored_bytes_are_captured_again() {
    let a = Buffer { id: 0, len: 64 };
    let spans = vec![span(a, 8, 16), span(a, 40, 8)];
    let mut d = Memory { buffers: vec![vec![0; 64]] };
    let bytes: Vec<u8> = (1..=24).collect();
    d.scatter(&spans, &bytes).unwrap();
    assert_eq!(d.gather(&spans), bytes);
    assert_eq!(d.buffers[0].iter().filter(|b| **b == 0).count(), 40);
}

#[test]
fn checkpoints_of_another_size_or_outside_their_buffer_are_refused() {
    let a = Buffer { id: 0, len: 64 };
    let refused = MetalError::Model(Fault::Checkpoint);
    assert_eq!(restore(&vec![span(a, 0, 32)], 31).err(), Some(refused));
    assert_eq!(restore(&vec![span(a, 32, 33)], 33).err(), Some(refused));
    assert_eq!(restore(&vec![span(a, u64::MAX, 2)], 2).err(), Some(refused));
    let huge = vec![span(a, 0, u64::MAX), span(a, 0, 1)];
    assert_eq!(capture_size(&huge), Err(MetalError::Memory(Fault::Overflow)));
    assert_eq!(capture(&huge).err(), Some(MetalError::Memory(Fault::Overflow)));
    assert_eq!(capture_size(&vec![span(a, 32, 32), span(a, 0, 4)]), Ok(36));
}

#[test]
fn page_runs_keep_their_order_and_are_maximal() {
    let a = Buffer { id: 0, len: 4096 };
    let runs = |blocks: Vec<u32>| {
        paged_spans(a, &blocks, 16).iter().map(|s| (s.offset, s.len)).collect::<Vec<_>>()
    };
    assert_eq!(runs(vec![]), []);
    assert_eq!(runs(vec![3]), [(48, 16)]);
    assert_eq!(runs(vec![3, 2, 1]), [(48, 16), (32, 16), (16, 16)]);
    assert_eq!(runs(vec![1, 2, 3, 3, 4]), [(16, 48), (48, 32)]);
}

#[test]
fn endpoint_scopes_are_derived_digests() {
    let mut h = blake3::Hasher::new_derive_key("paddock metal endpoint trust domain v1");
    h.update(&8080u16.to_le_bytes());
    assert_eq!(KvOffloadConfig::endpoint_scope(8080, None), h.finalize().as_bytes());
    h.update(b"SECRET");
    let keyed = KvOffloadConfig::endpoint_scope(8080, Some("SECRET"));
    assert_eq!(keyed, h.finalize().as_bytes());
    assert_ne!(keyed, KvOffloadConfig::endpoint_scope(8081, Some("SECRET")));
    assert!(!keyed.windows(6).any(|w| w == b"SECRET"));
}

#[test]
fn the_first_configuration_stays() {
    let mut cell = Configured { value: None };
    assert!(kv_offload_config(&cell).is_none());
    let first = KvOffloadConfig { ram_bytes: 7, disk: Some(("/cold".into(), 9)), scope: vec![1] };
    configure_kv_offload(&mut cell, Some(first));
    configure_kv_offload(&mut cell, None);
    let got = kv_offload_config(&cell).unwrap();
    assert_eq!((got.ram_bytes, got.disk, got.scope), (7, Some(("/cold".to_string(), 9)), vec![1]));
    let mut off = Configured { value: None };
    configure_kv_offload(&mut off, None);
    configure_kv_offload(&mut off, Some(KvOffloadConfig { ram_bytes: 1, disk: None, scope: vec![] }));
    assert!(kv_offload_config(&off).is_none());
}

fn version(size: u64) -> FileVersion {
    FileVersion {
        device: 1,
        inode: 2,
        size,
        modified: 3,
        modified_nanos: 4,
        changed: 5,
        changed_nanos: 6,
    }
}

#[test]
fn changed_files_are_refused() {
    let one = vec![version(10), version(11)];
    assert_eq!(require_unchanged(&one, &vec![version(10), version(11)]), Ok(()));
    let changed = Err(MetalError::Model(Fault::Changed));
    assert_eq!(require_unchanged(&one, &vec![version(10), version(12)]), changed);
    assert_eq!(require_unchanged(&one, &vec![version(10)]), changed);
    let mut touched = vec![version(10), version(11)];
    touched[1].changed_nanos = 7;
    assert_eq!(require_unchanged(&one, &touched), changed);
}

fn of(layout: &[u8], sources: &[&[u8]], paths: &[&[&[u8]]]) -> [u8; 32] {
    let files = |p: &&[&[u8]]| p.iter().map(|f| f.to_vec()).collect();
    let texts = sources.iter().map(|t| t.to_vec()).collect();
    namespace(layout, &texts, &paths.iter().map(files).collect(), vec![]).identity
}

#[test]
fn namespaces_commit_every_file() {
    let at = |file: &[u8]| of(b"layout", &[b"source"], &[&[b"one", file]]);
    assert_eq!(at(b"two"), at(b"two"));
    assert_ne!(at(b"two"), at(b"tw0"));
    // Nothing moves from one file into the next.
    let files = |a: &[u8], b: &[u8]| of(b"layout", &[], &[&[a, b]]);
    assert_ne!(files(b"ab", b"c"), files(b"a", b"bc"));
    assert_ne!(of(b"a", &[], &[]), of(b"b", &[], &[]));
    // Everything that is fed, in its order.
    let mut h = blake3::Hasher::new_derive_key("paddock metal checkpoint identity v1");
    h.update(b"layout").update(&6u64.to_le_bytes()).update(b"source");
    h.update(&2u64.to_le_bytes());
    h.update(&3u64.to_le_bytes()).update(b"one");
    h.update(&3u64.to_le_bytes()).update(b"two");
    assert_eq!(&at(b"two"), h.finalize().as_bytes());
}

#[test]
fn files_may_be_read_in_pieces() {
    let sources = vec![b"source".to_vec()];
    let mut pieces = Identity::begin(b"layout", &sources);
    pieces.path(2);
    pieces.file(3);
    pieces.bytes(b"one");
    pieces.file(6);
    pieces.bytes(b"abc");
    pieces.bytes(b"");
    pieces.bytes(b"def");
    let got = pieces.finish(vec![7, 8]);
    assert_eq!(got.identity, of(b"layout", &[b"source"], &[&[b"one", b"abcdef"]]));
    assert_eq!(got.scope, [7, 8]);
    pieces.file(0);
    assert_ne!(pieces.finish(vec![]).identity, got.identity);
}

#[test]
fn bytes_that_move_between_files_change_the_namespace() {
    let of = |paths: &[&[&[u8]]]| of(b"layout", &[b"kernels"], paths);
    let whole = of(&[&[b"ab", b"c"], &[b"d"]]);
    assert_eq!(whole, of(&[&[b"ab", b"c"], &[b"d"]]));
    assert_ne!(whole, of(&[&[b"a", b"bc"], &[b"d"]]));
    assert_ne!(whole, of(&[&[b"ab"], &[b"c", b"d"]]));
    assert_ne!(whole, of(&[&[b"ab", b"c"], &[b"e"]]));
    // One path more, even without files.
    assert_ne!(whole, of(&[&[b"ab", b"c"], &[b"d"], &[]]));
    assert_ne!(whole, of(&[&[b"ab", b"c"]]));
}

#[test]
fn another_layout_is_another_namespace() {
    let of = |layout: &[u8]| of(layout, &[b"kernel source"], &[&[b"weights"]]);
    assert_eq!(of(b"dense pages=16"), of(b"dense pages=16"));
    assert_ne!(of(b"dense pages=16"), of(b"dense pages=1"));
    assert_ne!(of(b"dense pages=16"), of(b"moe pages=16"));
    assert_ne!(of(b""), of(b"x"));
}

#[test]
fn namespaces_belong_to_one_trust_domain() {
    let sources = vec![b"source".to_vec()];
    let at = |scope: Vec<u8>| namespace(b"layout", &sources, &vec![], scope);
    let scope = KvOffloadConfig::endpoint_scope(8080, Some("SECRET"));
    assert_eq!(scope.len(), 32);
    assert_eq!(at(scope.clone()).scope, scope);
    assert_eq!(at(scope.clone()).identity, at(vec![]).identity);
    assert_ne!(at(scope), at(vec![]));
}

#[test]
fn pages_of_any_addressable_size_make_runs() {
    let a = Buffer { id: 0, len: u64::MAX };
    let big = 1u64 << 33;
    let runs: Vec<(u64, u64)> =
        paged_spans(a, &vec![2, 3, 4, 9], big).iter().map(|s| (s.offset, s.len)).collect();
    assert_eq!(runs, [(2 * big, 3 * big), (9 * big, big)]);
    let one = paged_spans(a, &vec![0], u64::MAX);
    assert_eq!(one, [span(a, 0, u64::MAX)]);
    assert_eq!(paged_spans(a, &(7..1007).collect(), 48), [span(a, 7 * 48, 1000 * 48)]);
    assert_eq!(paged_spans(a, &vec![], big), []);
}
