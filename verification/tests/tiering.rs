use paddock_metal::error::{Fault, MetalError};
use paddock_metal::paged_offload::{keys, spans, PagePlane, PagedTier};
use paddock_metal::program::Buffer;
use paddock_metal::tiering::{find_hit, hit_shape, no_decisions, observe, HitShape, Loading, Observe};

fn planes() -> Vec<PagePlane> {
    vec![
        PagePlane { buffer: Buffer { id: 3, len: 1 << 20 }, bytes: 256 },
        PagePlane { buffer: Buffer { id: 4, len: 1 << 20 }, bytes: 512 },
    ]
}

fn tier() -> PagedTier {
    PagedTier::open(&planes(), 1 << 20, 4096).unwrap().0
}

#[test]
fn boundaries_are_whole_pages_short_of_the_prompt() {
    let of = |n: u32| keys(&(0..n).collect());
    assert!(of(0).is_empty() && of(48).is_empty());
    assert_eq!(of(49), [48]);
    assert_eq!(of(96), [48, 64, 80]);
}

#[test]
fn the_least_host_memory_is_nine_pages_and_a_margin() {
    let least = 768 * 9 + 131072;
    assert_eq!(PagedTier::open(&planes(), least, 4096).unwrap().1, 768 * 256);
    assert_eq!(
        PagedTier::open(&planes(), least - 1, 4096).err(),
        Some(MetalError::Memory(Fault::Transfer))
    );
}

#[test]
fn captures_take_every_plane_of_the_kept_pages() {
    let t = tier();
    let tokens: Vec<u32> = (0..70).collect();
    assert!(t.capture_plan(&planes(), &tokens, &vec![9, 10, 11]).is_none());
    let (n, list) = t.capture_plan(&planes(), &tokens, &vec![9, 10, 2, 3, 5]).unwrap();
    assert_eq!(n, 64);
    let got: Vec<(u32, u64, u64)> = list.iter().map(|s| (s.buffer.id, s.offset, s.len)).collect();
    assert_eq!(got, [(3, 2304, 512), (3, 512, 512), (4, 4608, 1024), (4, 1024, 1024)]);
    assert_eq!(spans(&planes(), &vec![]).len(), 0);
}

#[test]
fn the_longest_kept_prefix_wins() {
    let bounds = vec![48, 64, 80];
    assert_eq!(find_hit(&bounds, &vec![true, true, false], 0), Some(64));
    assert_eq!(find_hit(&bounds, &vec![true, true, false], 64), None);
    assert_eq!(find_hit(&bounds, &vec![false; 3], 0), None);
}

#[test]
fn lookups_wait_for_a_restore_that_serves_them() {
    let mut t = tier();
    let tokens: Vec<u32> = (0..100).collect();
    let none = vec![false; 4];
    assert_eq!(t.lookup(&tokens, 0, &none), Loading::Recompute);
    assert_eq!(t.lookup(&tokens, 0, &vec![true, false, true, false]), Loading::Hit { n: 80 });
    assert_eq!((t.decisions.lookups, t.decisions.hits, t.decisions.miss_cold), (2, 1, 1));
    t.place(&tokens, 64, vec![1, 2, 3, 4], 1000, true);
    assert_eq!(t.lookup(&tokens, 0, &none), Loading::Wait);
    assert_eq!(t.lookup(&tokens, 64, &none), Loading::Recompute);
    assert_eq!(t.open_tickets(2), 3);
    let (r, ok) = t.pump(true).unwrap();
    assert_eq!((r.blocks.len(), r.tokens.len(), ok), (4, 64, true));
    assert_eq!((t.decisions.resolved_ok, t.decisions.served_from_nvme), (1, 1));
    assert_eq!((t.decisions.useful_bytes, t.decisions.served_from_ram), (1000, 0));
    assert!(t.pump(true).is_none());
    assert_eq!(t.open_tickets(2), 2);
}

#[test]
fn a_failed_restore_resolves_nothing() {
    let mut t = tier();
    t.place(&(0..100).collect(), 48, vec![1, 2, 3], 10, false);
    assert!(!t.pump(false).unwrap().1);
    assert_eq!(t.decisions, no_decisions());
}

#[test]
fn elections_follow_the_measured_cost() {
    let mut t = tier();
    assert_eq!(t.elect(None, true, false, false), Loading::Recompute);
    // Nothing is measured yet, so the first hit is read.
    assert_eq!(t.elect(Some((10, false)), false, false, false), Loading::Read);
    assert_eq!(t.observe(5, 0f64.to_bits()), Observe::Ignore);
    assert_eq!(t.observe(5, 2.5f64.to_bits()), Observe::Seed);
    assert_eq!(t.observe(0, 2.5f64.to_bits()), Observe::Update);
    assert_eq!(t.elect(Some((10, false)), false, false, false), Loading::Recompute);
    assert_eq!(t.decisions.elected_recompute, 1);
    assert_eq!(t.elect(Some((10, true)), true, false, true), Loading::Recompute);
    assert_eq!(t.decisions.park_refused, 1);
    assert_eq!(t.elect(Some((10, true)), true, true, true), Loading::Read);
}

#[test]
fn reads_wait_place_or_give_up() {
    let mut t = tier();
    assert_eq!(t.read(true, false, false), Loading::Wait);
    assert_eq!((t.decisions.elected_restore, t.decisions.parked), (1, 1));
    assert_eq!(t.read(true, false, true), Loading::Wait);
    assert_eq!(t.decisions.parked, 1);
    assert_eq!(t.read(false, false, true), Loading::Recompute);
    assert_eq!(t.read(false, true, true), Loading::Place);
    t.place(&(0..100).collect(), 48, vec![], 10, false);
    assert_eq!(t.read(false, true, true), Loading::Wait);
}

#[test]
fn disk_hits_pay_for_the_queue() {
    let ram = HitShape { restore_bytes: 100, restore_tokens: 16, queued_bytes: 0, nvme_bytes: 0 };
    assert_eq!(hit_shape(100, false, 7, 64, 48), ram);
    let disk = HitShape { restore_bytes: 107, restore_tokens: 16, queued_bytes: 0, nvme_bytes: 107 };
    assert_eq!(hit_shape(100, true, 7, 64, 48), disk);
}

#[test]
fn only_positive_finite_times_seed_the_measure() {
    for bad in [0., -1., f64::INFINITY, f64::NAN] {
        let mut measured = false;
        assert_eq!(observe(&mut measured, 5, bad.to_bits()), Observe::Ignore);
        assert!(!measured);
    }
    let mut measured = false;
    assert_eq!(observe(&mut measured, 0, 1f64.to_bits()), Observe::Ignore);
    assert_eq!(observe(&mut measured, 1, 1f64.to_bits()), Observe::Seed);
    assert!(measured);
}

#[test]
fn counts_stay_balanced() {
    let mut d = no_decisions();
    d.look_up(None);
    d.look_up(Some(48));
    d.read(true, false, false, false);
    d.resolve(100, false);
    d.resolve(200, true);
    assert_eq!(d.lookups, d.hits + d.miss_cold);
    assert_eq!(d.resolved_ok, d.served_from_ram + d.served_from_nvme);
    assert_eq!((d.useful_bytes, d.moved_bytes), (300, 300));
    assert_eq!(d.elected_restore, d.parked);
}
