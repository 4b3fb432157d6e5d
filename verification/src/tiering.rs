//! What a colder tier decides about a prompt: recompute, wait or restore. The
//! counters record every decision once.
use vstd::prelude::*;

verus! {

/// What the tier decided so far.
#[derive(Clone, Copy, Debug, PartialEq, Eq, Structural)]
pub struct Decisions {
    pub lookups: u64,
    pub hits: u64,
    pub miss_cold: u64,
    pub elected_restore: u64,
    pub elected_recompute: u64,
    pub parked: u64,
    pub park_refused: u64,
    pub resolved_ok: u64,
    pub useful_bytes: u64,
    pub moved_bytes: u64,
    pub served_from_ram: u64,
    pub served_from_nvme: u64,
}

/// Nothing decided.
pub open spec fn undecided() -> Decisions {
    Decisions {
        lookups: 0,
        hits: 0,
        miss_cold: 0,
        elected_restore: 0,
        elected_recompute: 0,
        parked: 0,
        park_refused: 0,
        resolved_ok: 0,
        useful_bytes: 0,
        moved_bytes: 0,
        served_from_ram: 0,
        served_from_nvme: 0,
    }
}

pub fn no_decisions() -> (r: Decisions)
    ensures
        r == undecided(),
{
    Decisions {
        lookups: 0,
        hits: 0,
        miss_cold: 0,
        elected_restore: 0,
        elected_recompute: 0,
        parked: 0,
        park_refused: 0,
        resolved_ok: 0,
        useful_bytes: 0,
        moved_bytes: 0,
        served_from_ram: 0,
        served_from_nvme: 0,
    }
}

/// How a lookup goes on.
#[derive(Clone, Copy, Debug, PartialEq, Eq, Structural)]
pub enum Loading {
    /// Nothing is on its way: recompute.
    Recompute,
    /// The prefix is on its way: ask again later.
    Wait,
    /// A kept prefix of this length could serve.
    Hit { n: usize },
    /// Read it.
    Read,
    /// Take pages for it and copy.
    Place,
}

/// The longest kept boundary beyond what is resident.
pub open spec fn longest_hit(bounds: Seq<usize>, kept: Seq<bool>, resident: int, i: int) -> Option<usize>
    decreases i,
{
    if i <= 0 {
        None
    } else if bounds[i - 1] > resident && kept[i - 1] {
        Some(bounds[i - 1])
    } else {
        longest_hit(bounds, kept, resident, i - 1)
    }
}

pub fn find_hit(bounds: &Vec<usize>, kept: &Vec<bool>, resident: usize) -> (r: Option<usize>)
    requires
        kept.len() == bounds.len(),
    ensures
        r == longest_hit(bounds@, kept@, resident as int, bounds.len() as int),
{
    let mut i: usize = bounds.len();
    while i > 0
        invariant
            i <= bounds.len() == kept.len(),
            longest_hit(bounds@, kept@, resident as int, bounds.len() as int) == longest_hit(
                bounds@,
                kept@,
                resident as int,
                i as int,
            ),
        decreases i,
    {
        if bounds[i - 1] > resident && kept[i - 1] {
            return Some(bounds[i - 1]);
        }
        i = i - 1;
    }
    None
}

/// A hit is kept and longer than what is resident, and no kept boundary
/// further on is.
pub proof fn longest_hit_is_last(bounds: Seq<usize>, kept: Seq<bool>, resident: int, n: int)
    requires
        0 <= n <= bounds.len(),
        kept.len() == bounds.len(),
    ensures
        match longest_hit(bounds, kept, resident, n) {
            None => forall|j: int| 0 <= j < n ==> !(#[trigger] bounds[j] > resident && kept[j]),
            Some(b) => exists|i: int|
                {
                    &&& 0 <= i < n
                    &&& #[trigger] bounds[i] == b
                    &&& b > resident
                    &&& kept[i]
                    &&& forall|j: int| i < j < n ==> !(#[trigger] bounds[j] > resident && kept[j])
                },
        },
    decreases n,
{
    if n > 0 {
        if bounds[n - 1] > resident && kept[n - 1] {
            assert(bounds[n - 1] == longest_hit(bounds, kept, resident, n)->0);
        } else {
            longest_hit_is_last(bounds, kept, resident, n - 1);
            if longest_hit(bounds, kept, resident, n - 1) is Some {
                let b = longest_hit(bounds, kept, resident, n - 1)->0;
                let i = choose|i: int|
                    {
                        &&& 0 <= i < n - 1
                        &&& #[trigger] bounds[i] == b
                        &&& b > resident
                        &&& kept[i]
                        &&& forall|j: int|
                            i < j < n - 1 ==> !(#[trigger] bounds[j] > resident && kept[j])
                    };
                assert(bounds[i] == b);
            }
        }
    }
}

/// A lookup is counted, as a hit or as a miss.
pub open spec fn looked_up(d: Decisions, hit: Option<usize>) -> Decisions {
    match hit {
        None => Decisions {
            lookups: (d.lookups + 1) as u64,
            miss_cold: (d.miss_cold + 1) as u64,
            ..d
        },
        Some(_) => Decisions { lookups: (d.lookups + 1) as u64, hits: (d.hits + 1) as u64, ..d },
    }
}

/// How a lookup with this result goes on.
pub open spec fn found(hit: Option<usize>) -> Loading {
    match hit {
        None => Loading::Recompute,
        Some(n) => Loading::Hit { n },
    }
}

/// Decide on a hit. `size` is the kept prefix's size and whether it lies on
/// disk, `restore` the cost model's election, `reading` that the read is
/// already under way, `writes` that the disk still has writes queued. A
/// prompt never waits behind writes.
pub open spec fn election(
    d: Decisions,
    measured: bool,
    size: Option<(u64, bool)>,
    restore: bool,
    reading: bool,
    writes: bool,
) -> (Decisions, Loading) {
    match size {
        None => (d, Loading::Recompute),
        Some((_, disk)) => if !reading && measured && !restore {
            (
                Decisions { elected_recompute: (d.elected_recompute + 1) as u64, ..d },
                Loading::Recompute,
            )
        } else if disk && writes && !reading {
            (Decisions { park_refused: (d.park_refused + 1) as u64, ..d }, Loading::Recompute)
        } else {
            (d, Loading::Read)
        },
    }
}

/// After asking for the bytes: `pending` says that they are still being
/// read, `there` that they can be had now, `lane` that the one copy lane is
/// taken.
pub open spec fn answer(d: Decisions, pending: bool, there: bool, reading: bool, lane: bool) -> (
    Decisions,
    Loading,
) {
    if pending {
        (
            if reading {
                d
            } else {
                Decisions {
                    elected_restore: (d.elected_restore + 1) as u64,
                    parked: (d.parked + 1) as u64,
                    ..d
                }
            },
            Loading::Wait,
        )
    } else if !there {
        (d, Loading::Recompute)
    } else if lane {
        (d, Loading::Wait)
    } else {
        (d, Loading::Place)
    }
}

/// A restore of `bytes` was published. One that was parked came from disk.
pub open spec fn resolved(d: Decisions, bytes: u64, disk: bool) -> Decisions {
    Decisions {
        resolved_ok: (d.resolved_ok + 1) as u64,
        useful_bytes: (d.useful_bytes + bytes) as u64,
        moved_bytes: (d.moved_bytes + bytes) as u64,
        served_from_nvme: if disk { (d.served_from_nvme + 1) as u64 } else { d.served_from_nvme },
        served_from_ram: if disk { d.served_from_ram } else { (d.served_from_ram + 1) as u64 },
        ..d
    }
}

impl Decisions {
    /// Room for one more of everything.
    pub open spec fn room(self, bytes: int) -> bool {
        &&& self.lookups < u64::MAX
        &&& self.hits < u64::MAX
        &&& self.miss_cold < u64::MAX
        &&& self.elected_restore < u64::MAX
        &&& self.elected_recompute < u64::MAX
        &&& self.parked < u64::MAX
        &&& self.park_refused < u64::MAX
        &&& self.resolved_ok < u64::MAX
        &&& self.useful_bytes + bytes <= u64::MAX
        &&& self.moved_bytes + bytes <= u64::MAX
        &&& self.served_from_ram < u64::MAX
        &&& self.served_from_nvme < u64::MAX
    }

    pub fn look_up(&mut self, hit: Option<usize>) -> (r: Loading)
        requires
            old(self).room(0),
        ensures
            *final(self) == looked_up(*old(self), hit),
            r == found(hit),
    {
        self.lookups = self.lookups + 1;
        match hit {
            None => {
                self.miss_cold = self.miss_cold + 1;
                Loading::Recompute
            },
            Some(n) => {
                self.hits = self.hits + 1;
                Loading::Hit { n }
            },
        }
    }

    pub fn elect(
        &mut self,
        measured: bool,
        size: Option<(u64, bool)>,
        restore: bool,
        reading: bool,
        writes: bool,
    ) -> (r: Loading)
        requires
            old(self).room(0),
        ensures
            (*final(self), r) == election(*old(self), measured, size, restore, reading, writes),
    {
        match size {
            None => Loading::Recompute,
            Some((_, disk)) => {
                if !reading && measured && !restore {
                    self.elected_recompute = self.elected_recompute + 1;
                    Loading::Recompute
                } else if disk && writes && !reading {
                    self.park_refused = self.park_refused + 1;
                    Loading::Recompute
                } else {
                    Loading::Read
                }
            },
        }
    }

    pub fn read(&mut self, pending: bool, there: bool, reading: bool, lane: bool) -> (r: Loading)
        requires
            old(self).room(0),
        ensures
            (*final(self), r) == answer(*old(self), pending, there, reading, lane),
    {
        if pending {
            if !reading {
                self.elected_restore = self.elected_restore + 1;
                self.parked = self.parked + 1;
            }
            return Loading::Wait;
        }
        if !there {
            Loading::Recompute
        } else if lane {
            Loading::Wait
        } else {
            Loading::Place
        }
    }

    pub fn resolve(&mut self, bytes: u64, disk: bool)
        requires
            old(self).room(bytes as int),
        ensures
            *final(self) == resolved(*old(self), bytes, disk),
    {
        self.resolved_ok = self.resolved_ok + 1;
        self.useful_bytes = self.useful_bytes + bytes;
        self.moved_bytes = self.moved_bytes + bytes;
        if disk {
            self.served_from_nvme = self.served_from_nvme + 1;
        } else {
            self.served_from_ram = self.served_from_ram + 1;
        }
    }
}

/// Every lookup is a hit or a miss, and every published restore came from
/// exactly one place: these balances survive every decision.
pub open spec fn balanced(d: Decisions) -> bool {
    &&& d.lookups == d.hits + d.miss_cold
    &&& d.resolved_ok == d.served_from_ram + d.served_from_nvme
    &&& d.useful_bytes == d.moved_bytes
    &&& d.elected_restore == d.parked
}

pub proof fn decisions_stay_balanced(
    d: Decisions,
    hit: Option<usize>,
    measured: bool,
    size: Option<(u64, bool)>,
    flags: (bool, bool, bool, bool, bool),
    bytes: u64,
)
    requires
        d.room(bytes as int),
        balanced(d),
    ensures
        balanced(undecided()),
        balanced(looked_up(d, hit)),
        balanced(election(d, measured, size, flags.0, flags.1, flags.2).0),
        balanced(answer(d, flags.3, flags.4, flags.1, flags.0).0),
        balanced(resolved(d, bytes, flags.0)),
{
}

/// What a hit costs to restore.
#[derive(Clone, Copy, Debug, PartialEq, Eq, Structural)]
pub struct HitShape {
    pub restore_bytes: u64,
    pub restore_tokens: u32,
    pub queued_bytes: u64,
    pub nvme_bytes: u64,
}

/// The shape of a hit of `n` tokens: a read from disk waits for the queued
/// writes, at the disk's rate.
pub fn hit_shape(bytes: u64, disk: bool, queued: u64, n: usize, resident: usize) -> (r: HitShape)
    requires
        bytes + queued <= u64::MAX,
        resident <= n,
        n - resident <= u32::MAX,
    ensures
        r == (HitShape {
            restore_bytes: (bytes + if disk { queued as int } else { 0 }) as u64,
            restore_tokens: (n - resident) as u32,
            queued_bytes: 0,
            nvme_bytes: if disk { (bytes + queued) as u64 } else { 0 },
        }),
{
    let transfer: u64 = bytes + if disk { queued } else { 0 };
    HitShape {
        restore_bytes: transfer,
        restore_tokens: (n - resident) as u32,
        queued_bytes: 0,
        nvme_bytes: if disk { transfer } else { 0 },
    }
}

#[derive(Clone, Copy, Debug, PartialEq, Eq, Structural)]
pub enum Observe {
    Ignore,
    Seed,
    Update,
}

/// Bit pattern of a positive finite double-precision number.
pub open spec fn positive(bits: u64) -> bool {
    0 < bits < 0x7ff0_0000_0000_0000
}

/// What a measured prompt does to the cost model: the first sound measure
/// seeds it, later ones update it.
pub open spec fn observed(measured: bool, n: u32, micros: u64) -> Observe {
    if measured {
        Observe::Update
    } else if n > 0 && positive(micros) {
        Observe::Seed
    } else {
        Observe::Ignore
    }
}

/// A measured prompt. The time is the bit pattern of a double-precision
/// number.
pub fn observe(measured: &mut bool, n: u32, micros: u64) -> (r: Observe)
    ensures
        r == observed(*old(measured), n, micros),
        *final(measured) == (*old(measured) || r == Observe::Seed),
{
    if *measured {
        Observe::Update
    } else if n > 0 && micros > 0 && micros < 0x7ff0_0000_0000_0000 {
        *measured = true;
        Observe::Seed
    } else {
        Observe::Ignore
    }
}

} // verus!
