//! Moving saved state out of device memory and back: which bytes, in which
//! order, and under which identity.
use vstd::prelude::*;
use vstd::bytes::{spec_u16_to_le_bytes, spec_u64_to_le_bytes, u16_to_le_bytes, u64_to_le_bytes};
use vstd::string::StringSliceAdditionalSpecFns;
use crate::digest::{absorbed, blake3_derived, domain, finalize, new_derive_key, update};
use crate::error::{Fault, MetalError};
use crate::program::Buffer;

verus! {

/// Where and how much state may be kept outside device memory.
#[derive(Debug)]
pub struct KvOffloadConfig {
    pub ram_bytes: u64,
    /// Directory and quota.
    pub disk: Option<(String, u64)>,
    /// The owner's trust domain. It holds no credential.
    pub scope: Vec<u8>,
}

/// A configuration, as a value.
#[verifier::ext_equal]
pub struct Offloading {
    pub ram_bytes: u64,
    pub disk: Option<(Seq<char>, u64)>,
    pub scope: Seq<u8>,
}

impl View for KvOffloadConfig {
    type V = Offloading;

    open spec fn view(&self) -> Offloading {
        Offloading {
            ram_bytes: self.ram_bytes,
            disk: match self.disk {
                Some((p, q)) => Some((p@, q)),
                None => None,
            },
            scope: self.scope@,
        }
    }
}

/// The digest that stands for a port and its credential.
pub open spec fn endpoint_digest(port: u16, key: Seq<u8>) -> Seq<u8> {
    blake3_derived(
        "paddock metal endpoint trust domain v1"@,
        spec_u16_to_le_bytes(port) + key,
    )
}

impl KvOffloadConfig {
    /// The trust domain of an endpoint. It changes with the credential, and
    /// only the digest leaves this function.
    pub fn endpoint_scope(port: u16, api_key: Option<&str>) -> (r: Vec<u8>)
        ensures
            r.len() == 32,
            r@ == endpoint_digest(
                port,
                match api_key {
                    Some(k) => k.spec_bytes(),
                    None => Seq::empty(),
                },
            ),
    {
        let mut h = new_derive_key("paddock metal endpoint trust domain v1");
        let head = u16_to_le_bytes(port);
        update(&mut h, head.as_slice());
        let ghost start = spec_u16_to_le_bytes(port);
        assert(absorbed(h) =~= start);
        match api_key {
            Some(k) => {
                update(&mut h, k.as_bytes());
            },
            None => {
                assert(start + Seq::<u8>::empty() =~= start);
            },
        }
        let d = finalize(&h);
        let mut out: Vec<u8> = Vec::new();
        let mut i: usize = 0;
        while i < 32
            invariant
                i <= 32,
                out@ == d@.take(i as int),
            decreases 32 - i,
        {
            out.push(d[i]);
            assert(out@ =~= d@.take(i + 1));
            i = i + 1;
        }
        assert(out@ =~= d@);
        out
    }

    pub fn copy(&self) -> (r: Self)
        ensures
            r@ == self@,
    {
        let disk = match &self.disk {
            Some((p, q)) => Some((p.as_str().to_owned(), *q)),
            None => None,
        };
        let mut scope: Vec<u8> = Vec::new();
        let mut i: usize = 0;
        while i < self.scope.len()
            invariant
                i <= self.scope.len(),
                scope@ == self.scope@.take(i as int),
            decreases self.scope.len() - i,
        {
            scope.push(self.scope[i]);
            assert(scope@ =~= self.scope@.take(i + 1));
            i = i + 1;
        }
        assert(scope@ =~= self.scope@);
        let r = KvOffloadConfig { ram_bytes: self.ram_bytes, disk, scope };
        assert(r@ =~= self@);
        r
    }
}

/// A setting that is made once.
#[derive(Debug)]
pub struct Configured {
    pub value: Option<Option<KvOffloadConfig>>,
}

/// The setting as it is read.
pub open spec fn setting(c: Configured) -> Option<Offloading> {
    match c.value {
        Some(Some(v)) => Some(v@),
        _ => None,
    }
}

/// The first call decides; later ones change nothing.
pub fn configure_kv_offload(cell: &mut Configured, config: Option<KvOffloadConfig>)
    ensures
        final(cell).value is Some,
        match old(cell).value {
            Some(_) => *final(cell) == *old(cell),
            None => final(cell).value == Some(config),
        },
{
    if cell.value.is_none() {
        cell.value = Some(config);
    }
}

/// What was configured, if anything.
pub fn kv_offload_config(cell: &Configured) -> (r: Option<KvOffloadConfig>)
    ensures
        match r {
            Some(v) => setting(*cell) == Some(v@),
            None => setting(*cell) is None,
        },
{
    match &cell.value {
        Some(Some(v)) => Some(v.copy()),
        Some(None) => None,
        None => None,
    }
}

/// A run of bytes in a device buffer.
#[derive(Clone, Copy, Debug, PartialEq, Eq, Structural)]
pub struct Span {
    pub buffer: Buffer,
    pub offset: u64,
    pub len: u64,
}

/// Byte addresses of the first `n` spans, in order.
pub open spec fn addresses(spans: Seq<Span>) -> Seq<(Buffer, int)>
    decreases spans.len(),
{
    if spans.len() == 0 {
        Seq::empty()
    } else {
        addresses(spans.drop_last()) + span_addresses(spans.last())
    }
}

pub open spec fn span_addresses(s: Span) -> Seq<(Buffer, int)> {
    Seq::new(s.len as nat, |i: int| (s.buffer, s.offset + i))
}

/// Byte addresses of whole pages, in order.
pub open spec fn page_addresses(buffer: Buffer, blocks: Seq<u32>, bytes: int) -> Seq<(Buffer, int)>
    decreases blocks.len(),
{
    if blocks.len() == 0 {
        Seq::empty()
    } else {
        page_addresses(buffer, blocks.drop_last(), bytes) + Seq::new(
            bytes as nat,
            |i: int| (buffer, blocks.last() * bytes + i),
        )
    }
}

/// Page runs: a page that begins where the last run ends joins it.
pub open spec fn runs(buffer: Buffer, blocks: Seq<u32>, bytes: int) -> Seq<Span>
    decreases blocks.len(),
{
    if blocks.len() == 0 {
        Seq::empty()
    } else {
        let before = runs(buffer, blocks.drop_last(), bytes);
        let offset = blocks.last() * bytes;
        if before.len() > 0 && before.last().offset + before.last().len == offset {
            before.drop_last().push(
                Span { buffer, offset: before.last().offset, len: (before.last().len + bytes) as u64 },
            )
        } else {
            before.push(Span { buffer, offset: offset as u64, len: bytes as u64 })
        }
    }
}

/// Pages whose ends can be addressed.
pub open spec fn pages_fit(blocks: Seq<u32>, bytes: int) -> bool {
    &&& 0 <= bytes
    &&& forall|i: int| 0 <= i < blocks.len() ==> (#[trigger] blocks[i] + 1) * bytes <= u64::MAX
}

/// Pages of less than four gigabytes always fit.
pub proof fn lemma_pages_fit(blocks: Seq<u32>, bytes: int)
    requires
        0 <= bytes <= 0xffff_ffff,
    ensures
        pages_fit(blocks, bytes),
{
    assert forall|i: int| 0 <= i < blocks.len() implies (#[trigger] blocks[i] + 1) * bytes
        <= u64::MAX by {
        let b = blocks[i] as int;
        assert((b + 1) * bytes <= 0x1_0000_0000 * 0xffff_ffff) by (nonlinear_arith)
            requires
                0 <= b <= 0xffff_ffff,
                0 <= bytes <= 0xffff_ffff,
        ;
    }
}

/// Runs end no further than the pages that they hold.
proof fn lemma_runs_end(buffer: Buffer, blocks: Seq<u32>, bytes: int)
    requires
        pages_fit(blocks, bytes),
        blocks.len() > 0,
    ensures
        runs(buffer, blocks, bytes).len() > 0,
        ({
            let last = runs(buffer, blocks, bytes).last();
            &&& last.offset + last.len == (blocks.last() + 1) * bytes
            &&& last.buffer == buffer
            &&& bytes <= last.len
        }),
        0 <= blocks.last() * bytes,
        (blocks.last() + 1) * bytes == blocks.last() * bytes + bytes,
        (blocks.last() + 1) * bytes <= u64::MAX,
    decreases blocks.len(),
{
    let b = blocks.last() as int;
    assert(0 <= b * bytes && (b + 1) * bytes == b * bytes + bytes) by (nonlinear_arith)
        requires
            0 <= b,
            0 <= bytes,
    ;
    assert((blocks[blocks.len() - 1] + 1) * bytes <= u64::MAX);
    if blocks.len() > 1 {
        lemma_fit_prefix(blocks, bytes);
        lemma_runs_end(buffer, blocks.drop_last(), bytes);
    }
}

proof fn lemma_fit_prefix(blocks: Seq<u32>, bytes: int)
    requires
        pages_fit(blocks, bytes),
        blocks.len() > 0,
    ensures
        pages_fit(blocks.drop_last(), bytes),
{
    let rest = blocks.drop_last();
    assert forall|i: int| 0 <= i < rest.len() implies (#[trigger] rest[i] + 1) * bytes <= u64::MAX by {
        assert((blocks[i] + 1) * bytes <= u64::MAX);
    }
}

/// Coalescing keeps every byte of every page, in page order.
pub proof fn runs_keep_page_order(buffer: Buffer, blocks: Seq<u32>, bytes: int)
    requires
        pages_fit(blocks, bytes),
    ensures
        addresses(runs(buffer, blocks, bytes)) == page_addresses(buffer, blocks, bytes),
    decreases blocks.len(),
{
    if blocks.len() > 0 {
        lemma_fit_prefix(blocks, bytes);
        runs_keep_page_order(buffer, blocks.drop_last(), bytes);
        lemma_runs_end(buffer, blocks, bytes);
        let before = runs(buffer, blocks.drop_last(), bytes);
        let now = runs(buffer, blocks, bytes);
        let offset = blocks.last() * bytes;
        let page = Seq::new(bytes as nat, |i: int| (buffer, blocks.last() * bytes + i));
        if blocks.len() > 1 {
            lemma_runs_end(buffer, blocks.drop_last(), bytes);
        }
        if before.len() > 0 && before.last().offset + before.last().len == offset {
            let joined = now.last();
            assert(now.drop_last() =~= before.drop_last());
            assert(span_addresses(joined) =~= span_addresses(before.last()) + page);
            assert(addresses(now) =~= addresses(before.drop_last()) + span_addresses(before.last())
                + page);
        } else {
            assert(now.drop_last() =~= before);
            assert(span_addresses(now.last()) =~= page);
        }
    }
}

/// Every run lies in the buffer of its pages and holds whole pages; together
/// they hold as many as were asked for.
pub proof fn runs_hold_whole_pages(buffer: Buffer, blocks: Seq<u32>, bytes: int)
    requires
        0 < bytes,
        pages_fit(blocks, bytes),
    ensures
        span_bytes(runs(buffer, blocks, bytes)) == blocks.len() * bytes,
        forall|i: int|
            0 <= i < runs(buffer, blocks, bytes).len() ==> {
                let s = #[trigger] runs(buffer, blocks, bytes)[i];
                &&& s.buffer == buffer
                &&& bytes <= s.len
                &&& s.offset as int % bytes == 0
                &&& s.len as int % bytes == 0
            },
    decreases blocks.len(),
{
    if blocks.len() == 0 {
        assert(0int * bytes == 0) by (nonlinear_arith);
    } else {
        let n = blocks.len() as int;
        lemma_fit_prefix(blocks, bytes);
        runs_hold_whole_pages(buffer, blocks.drop_last(), bytes);
        lemma_runs_end(buffer, blocks, bytes);
        if n > 1 {
            lemma_runs_end(buffer, blocks.drop_last(), bytes);
        }
        assert(n * bytes == (n - 1) * bytes + bytes) by (nonlinear_arith);
        let before = runs(buffer, blocks.drop_last(), bytes);
        let now = runs(buffer, blocks, bytes);
        let offset = blocks.last() * bytes;
        vstd::arithmetic::div_mod::lemma_mod_multiples_basic(blocks.last() as int, bytes);
        vstd::arithmetic::div_mod::lemma_mod_self_0(bytes);
        if before.len() > 0 && before.last().offset + before.last().len == offset {
            let last = before[before.len() - 1];
            lemma_bytes_push(before.drop_last(), before.last());
            assert(before.drop_last().push(before.last()) =~= before);
            lemma_bytes_push(before.drop_last(), now.last());
            vstd::arithmetic::div_mod::lemma_mod_add_multiples_vanish(last.len as int, bytes);
        } else {
            lemma_bytes_push(before, now.last());
        }
        assert forall|i: int| 0 <= i < now.len() implies {
            let s = #[trigger] now[i];
            &&& s.buffer == buffer
            &&& bytes <= s.len
            &&& s.offset as int % bytes == 0
            &&& s.len as int % bytes == 0
        } by {
            if i < before.len() {
                let s = before[i];
            }
        }
    }
}

/// No two neighbouring runs could be one.
pub proof fn runs_are_maximal(buffer: Buffer, blocks: Seq<u32>, bytes: int, i: int)
    requires
        pages_fit(blocks, bytes),
        0 <= i,
        i + 1 < runs(buffer, blocks, bytes).len(),
    ensures
        ({
            let r = runs(buffer, blocks, bytes);
            r[i].offset + r[i].len != r[i + 1].offset
        }),
    decreases blocks.len(),
{
    if blocks.len() > 0 {
        let before = runs(buffer, blocks.drop_last(), bytes);
        let now = runs(buffer, blocks, bytes);
        lemma_runs_end(buffer, blocks, bytes);
        lemma_fit_prefix(blocks, bytes);
        if i + 1 < before.len() {
            runs_are_maximal(buffer, blocks.drop_last(), bytes, i);
        }
    }
}

/// Consecutive pages.
pub open spec fn consecutive(first: int, n: int) -> Seq<u32> {
    Seq::new(n as nat, |i: int| (first + i) as u32)
}

/// Consecutive pages are one run.
pub proof fn consecutive_pages_are_one_run(buffer: Buffer, first: int, n: int, bytes: int)
    requires
        0 <= first,
        0 < n,
        first + n <= 0x1_0000_0000,
        0 <= bytes,
        (first + n) * bytes <= u64::MAX,
    ensures
        pages_fit(consecutive(first, n), bytes),
        runs(buffer, consecutive(first, n), bytes) == seq![
            Span { buffer, offset: (first * bytes) as u64, len: (n * bytes) as u64 },
        ],
    decreases n,
{
    let pages = consecutive(first, n);
    assert forall|i: int| 0 <= i < pages.len() implies (#[trigger] pages[i] + 1) * bytes <= u64::MAX by {
        assert((first + i + 1) * bytes <= (first + n) * bytes) by (nonlinear_arith)
            requires
                i < n,
                0 <= bytes,
        ;
    }
    let rest = consecutive(first, n - 1);
    assert(pages.drop_last() =~= rest);
    assert((first + n - 1) * bytes == first * bytes + (n - 1) * bytes && n * bytes == (n - 1) * bytes
        + bytes && (first + n) * bytes == first * bytes + n * bytes && 0 <= first * bytes && 0 <= (n - 1)
        * bytes) by (nonlinear_arith)
        requires
            0 <= first,
            0 < n,
            0 <= bytes,
    ;
    let whole = Span { buffer, offset: (first * bytes) as u64, len: (n * bytes) as u64 };
    if n > 1 {
        consecutive_pages_are_one_run(buffer, first, n - 1, bytes);
        let before = runs(buffer, rest, bytes);
        assert(before.len() == 1);
        assert(before.last().offset + before.last().len == pages.last() * bytes);
        assert(runs(buffer, pages, bytes) =~= seq![whole]);
    } else {
        assert(runs(buffer, rest, bytes) =~= Seq::<Span>::empty());
        assert(runs(buffer, pages, bytes) =~= seq![whole]);
    }
}

/// The runs of whole pages in one buffer.
pub fn paged_spans(buffer: Buffer, blocks: &Vec<u32>, bytes: u64) -> (r: Vec<Span>)
    requires
        pages_fit(blocks@, bytes as int),
    ensures
        r@ == runs(buffer, blocks@, bytes as int),
{
    let mut spans: Vec<Span> = Vec::new();
    let mut i: usize = 0;
    assert(blocks@.take(0) =~= Seq::<u32>::empty());
    while i < blocks.len()
        invariant
            i <= blocks.len(),
            pages_fit(blocks@, bytes as int),
            spans@ == runs(buffer, blocks@.take(i as int), bytes as int),
        decreases blocks.len() - i,
    {
        let ghost next = blocks@.take(i + 1);
        proof {
            assert(next.drop_last() =~= blocks@.take(i as int));
            assert(next.last() == blocks[i as int]);
            assert forall|k: int| 0 <= k < next.len() implies (#[trigger] next[k] + 1) * bytes
                <= u64::MAX by {
                assert((blocks@[k] + 1) * bytes <= u64::MAX);
            }
            lemma_runs_end(buffer, next, bytes as int);
            if i > 0 {
                lemma_fit_prefix(next, bytes as int);
                lemma_runs_end(buffer, blocks@.take(i as int), bytes as int);
            }
        }
        let offset: u64 = blocks[i] as u64 * bytes;
        let n: usize = spans.len();
        let joins = n > 0 && spans[n - 1].offset + spans[n - 1].len == offset;
        if joins {
            let last = spans[n - 1];
            let ghost before = spans@;
            spans.set(n - 1, Span { buffer, offset: last.offset, len: last.len + bytes });
            assert(spans@ =~= before.drop_last().push(spans@.last()));
        } else {
            spans.push(Span { buffer, offset, len: bytes });
        }
        i = i + 1;
    }
    assert(blocks@.take(blocks.len() as int) =~= blocks@);
    spans
}

pub proof fn lemma_bytes_push(a: Seq<Span>, s: Span)
    ensures
        span_bytes(a.push(s)) == span_bytes(a) + s.len,
{
    assert(a.push(s).drop_last() =~= a);
}

/// Bytes of all spans.
pub open spec fn span_bytes(spans: Seq<Span>) -> int
    decreases spans.len(),
{
    if spans.len() == 0 {
        0
    } else {
        span_bytes(spans.drop_last()) + spans.last().len
    }
}

pub open spec fn inside(s: Span) -> bool {
    s.offset + s.len <= s.buffer.len
}

pub open spec fn all_inside(spans: Seq<Span>) -> bool {
    forall|i: int| 0 <= i < spans.len() ==> inside(#[trigger] spans[i])
}

/// The bytes that spans take, where they can be counted.
pub fn capture_size(spans: &Vec<Span>) -> (r: Result<u64, MetalError>)
    ensures
        r == if span_bytes(spans@) <= u64::MAX {
            Ok::<u64, MetalError>(span_bytes(spans@) as u64)
        } else {
            Err::<u64, MetalError>(MetalError::Memory(Fault::Overflow))
        },
{
    let mut n: u64 = 0;
    let mut i: usize = 0;
    assert(spans@.take(0) =~= Seq::<Span>::empty());
    while i < spans.len()
        invariant
            i <= spans.len(),
            n == span_bytes(spans@.take(i as int)),
        decreases spans.len() - i,
    {
        proof {
            assert(spans@.take(i + 1).drop_last() =~= spans@.take(i as int));
            assert(spans@.take(i + 1).last() == spans[i as int]);
        }
        match n.checked_add(spans[i].len) {
            Some(m) => {
                n = m;
            },
            None => {
                proof {
                    lemma_bytes_grow(spans@, i + 1);
                }
                return Err(MetalError::Memory(Fault::Overflow));
            },
        }
        i = i + 1;
    }
    assert(spans@.take(spans.len() as int) =~= spans@);
    Ok(n)
}

proof fn lemma_bytes_grow(spans: Seq<Span>, n: int)
    requires
        0 <= n <= spans.len(),
    ensures
        0 <= span_bytes(spans.take(n)) <= span_bytes(spans),
    decreases spans.len() - n,
{
    if n < spans.len() {
        lemma_bytes_grow(spans, n + 1);
        assert(spans.take(n + 1).drop_last() =~= spans.take(n));
        assert(spans.take(n + 1).last() == spans[n]);
        lemma_bytes_nonneg(spans.take(n));
    } else {
        assert(spans.take(n) =~= spans);
        lemma_bytes_nonneg(spans);
    }
}

proof fn lemma_bytes_nonneg(spans: Seq<Span>)
    ensures
        0 <= span_bytes(spans),
    decreases spans.len(),
{
    if spans.len() > 0 {
        lemma_bytes_nonneg(spans.drop_last());
    }
}

/// One copy between a span and a packed checkpoint.
#[derive(Clone, Copy, Debug, PartialEq, Eq, Structural)]
pub struct Region {
    pub span: Span,
    /// Where its bytes stand in the checkpoint.
    pub at: u64,
}

/// Spans packed one behind the other.
pub open spec fn regions(spans: Seq<Span>) -> Seq<Region> {
    Seq::new(spans.len(), |i: int| Region { span: spans[i], at: span_bytes(spans.take(i)) as u64 })
}

fn pack(spans: &Vec<Span>) -> (r: Vec<Region>)
    requires
        span_bytes(spans@) <= u64::MAX,
    ensures
        r@ == regions(spans@),
{
    let mut out: Vec<Region> = Vec::new();
    let mut at: u64 = 0;
    let mut i: usize = 0;
    assert(spans@.take(0) =~= Seq::<Span>::empty());
    while i < spans.len()
        invariant
            i <= spans.len(),
            span_bytes(spans@) <= u64::MAX,
            at == span_bytes(spans@.take(i as int)),
            out@ == regions(spans@).take(i as int),
        decreases spans.len() - i,
    {
        proof {
            assert(spans@.take(i + 1).drop_last() =~= spans@.take(i as int));
            assert(spans@.take(i + 1).last() == spans[i as int]);
            lemma_bytes_grow(spans@, i + 1);
        }
        out.push(Region { span: spans[i], at });
        assert(out@ =~= regions(spans@).take(i + 1));
        at = at + spans[i].len;
        i = i + 1;
    }
    assert(out@ =~= regions(spans@));
    out
}

/// The copies that pack spans into a checkpoint, and its size.
pub fn capture(spans: &Vec<Span>) -> (r: Result<(u64, Vec<Region>), MetalError>)
    ensures
        if span_bytes(spans@) <= u64::MAX {
            &&& r matches Ok((n, copies))
            &&& n == span_bytes(spans@)
            &&& copies@ == regions(spans@)
        } else {
            r == Err::<(u64, Vec<Region>), MetalError>(MetalError::Memory(Fault::Overflow))
        },
{
    proof {
        lemma_bytes_nonneg(spans@);
    }
    match capture_size(spans) {
        Err(e) => Err(e),
        Ok(n) => Ok((n, pack(spans))),
    }
}

/// A checkpoint of this size can be written to these spans.
pub open spec fn restorable(spans: Seq<Span>, size: int) -> bool {
    all_inside(spans) && span_bytes(spans) == size
}

/// The copies that restore a checkpoint. Every range and the total are
/// checked before the first of them.
pub fn restore(spans: &Vec<Span>, size: u64) -> (r: Result<Vec<Region>, MetalError>)
    ensures
        if restorable(spans@, size as int) {
            r matches Ok(copies) && copies@ == regions(spans@)
        } else {
            r == Err::<Vec<Region>, MetalError>(MetalError::Model(Fault::Checkpoint))
        },
{
    let mut i: usize = 0;
    while i < spans.len()
        invariant
            i <= spans.len(),
            forall|j: int| 0 <= j < i ==> inside(#[trigger] spans[j]),
        decreases spans.len() - i,
    {
        let s = spans[i];
        let fits = match s.offset.checked_add(s.len) {
            Some(end) => end <= s.buffer.len,
            None => false,
        };
        if !fits {
            assert(!inside(spans@[i as int]));
            return Err(MetalError::Model(Fault::Checkpoint));
        }
        i = i + 1;
    }
    proof {
        lemma_bytes_nonneg(spans@);
    }
    match capture_size(spans) {
        Err(_) => Err(MetalError::Model(Fault::Checkpoint)),
        Ok(n) => {
            if n != size {
                Err(MetalError::Model(Fault::Checkpoint))
            } else {
                Ok(pack(spans))
            }
        },
    }
}

/// Host-visible bytes of the device buffers, by buffer number.
#[derive(Debug)]
pub struct Memory {
    pub buffers: Vec<Vec<u8>>,
}

impl View for Memory {
    type V = Seq<Seq<u8>>;

    open spec fn view(&self) -> Seq<Seq<u8>> {
        self.buffers@.map_values(|b: Vec<u8>| b@)
    }
}

/// The memory holds the buffers that the spans name.
pub open spec fn backs(memory: Seq<Seq<u8>>, spans: Seq<Span>) -> bool {
    forall|i: int|
        0 <= i < spans.len() ==> {
            let b = (#[trigger] spans[i]).buffer;
            b.id < memory.len() && memory[b.id as int].len() == b.len
        }
}

/// The bytes of spans, one behind the other.
pub open spec fn gathered(memory: Seq<Seq<u8>>, spans: Seq<Span>) -> Seq<u8>
    decreases spans.len(),
{
    if spans.len() == 0 {
        Seq::empty()
    } else {
        let s = spans.last();
        gathered(memory, spans.drop_last()) + memory[s.buffer.id as int].subrange(
            s.offset as int,
            s.offset + s.len,
        )
    }
}

/// A buffer with one run of bytes replaced.
pub open spec fn patched(b: Seq<u8>, offset: int, bytes: Seq<u8>) -> Seq<u8> {
    Seq::new(b.len(), |i: int| if offset <= i < offset + bytes.len() { bytes[i - offset] } else { b[i] })
}

/// Memory after a checkpoint has been written to spans.
pub open spec fn scattered(memory: Seq<Seq<u8>>, spans: Seq<Span>, bytes: Seq<u8>) -> Seq<Seq<u8>>
    decreases spans.len(),
{
    if spans.len() == 0 {
        memory
    } else {
        let s = spans.last();
        let at = span_bytes(spans.drop_last());
        let before = scattered(memory, spans.drop_last(), bytes);
        before.update(
            s.buffer.id as int,
            patched(
                before[s.buffer.id as int],
                s.offset as int,
                bytes.subrange(at, at + s.len),
            ),
        )
    }
}

pub open spec fn apart(a: Span, b: Span) -> bool {
    a.buffer.id != b.buffer.id || a.offset + a.len <= b.offset || b.offset + b.len <= a.offset
}

/// No byte belongs to two spans.
pub open spec fn disjoint(spans: Seq<Span>) -> bool {
    forall|i: int, j: int|
        0 <= i < j < spans.len() ==> apart(#[trigger] spans[i], #[trigger] spans[j])
}

proof fn lemma_sub(memory: Seq<Seq<u8>>, spans: Seq<Span>)
    requires
        spans.len() > 0,
    ensures
        all_inside(spans) ==> all_inside(spans.drop_last()),
        backs(memory, spans) ==> backs(memory, spans.drop_last()),
        disjoint(spans) ==> disjoint(spans.drop_last()),
{
    let s = spans.drop_last();
    assert forall|i: int| 0 <= i < s.len() implies #[trigger] s[i] == spans[i] by {}
}

proof fn lemma_scattered_shape(memory: Seq<Seq<u8>>, spans: Seq<Span>, bytes: Seq<u8>)
    requires
        backs(memory, spans),
    ensures
        scattered(memory, spans, bytes).len() == memory.len(),
        forall|k: int|
            0 <= k < memory.len() ==> (#[trigger] scattered(memory, spans, bytes)[k]).len()
                == memory[k].len(),
    decreases spans.len(),
{
    if spans.len() > 0 {
        lemma_sub(memory, spans);
        lemma_scattered_shape(memory, spans.drop_last(), bytes);
        assert(spans[spans.len() - 1] == spans.last());
    }
}

/// Bytes outside every span stay as they were.
pub proof fn restoring_touches_nothing_else(
    memory: Seq<Seq<u8>>,
    spans: Seq<Span>,
    bytes: Seq<u8>,
    id: int,
    at: int,
)
    requires
        all_inside(spans),
        backs(memory, spans),
        bytes.len() == span_bytes(spans),
        0 <= id < memory.len(),
        0 <= at < memory[id].len(),
        forall|i: int|
            0 <= i < spans.len() ==> {
                let s = #[trigger] spans[i];
                s.buffer.id != id || at < s.offset || s.offset + s.len <= at
            },
    ensures
        scattered(memory, spans, bytes)[id][at] == memory[id][at],
    decreases spans.len(),
{
    lemma_unchanged(memory, spans, bytes, id, at);
}

proof fn lemma_unchanged(memory: Seq<Seq<u8>>, spans: Seq<Span>, bytes: Seq<u8>, id: int, at: int)
    requires
        backs(memory, spans),
        bytes.len() >= span_bytes(spans),
        0 <= id < memory.len(),
        0 <= at < memory[id].len(),
        forall|i: int|
            0 <= i < spans.len() ==> {
                let s = #[trigger] spans[i];
                s.buffer.id != id || at < s.offset || s.offset + s.len <= at
            },
    ensures
        scattered(memory, spans, bytes)[id][at] == memory[id][at],
    decreases spans.len(),
{
    if spans.len() > 0 {
        let rest = spans.drop_last();
        let s = spans.last();
        lemma_sub(memory, spans);
        assert(spans[spans.len() - 1] == s);
        assert forall|i: int| 0 <= i < rest.len() implies ({
            let s = #[trigger] rest[i];
            s.buffer.id != id || at < s.offset || s.offset + s.len <= at
        }) by {
            assert(rest[i] == spans[i]);
        }
        lemma_bytes_nonneg(rest);
        lemma_unchanged(memory, rest, bytes, id, at);
        lemma_scattered_shape(memory, rest, bytes);
    }
}

/// What a restore writes, a capture of the same spans reads back: for spans
/// that do not overlap, the checkpoint comes back byte for byte.
pub proof fn capture_gives_back_what_restore_wrote(memory: Seq<Seq<u8>>, spans: Seq<Span>, bytes: Seq<u8>)
    requires
        restorable(spans, bytes.len() as int),
        backs(memory, spans),
        disjoint(spans),
    ensures
        gathered(scattered(memory, spans, bytes), spans) == bytes,
{
    lemma_read_back(memory, spans, bytes, spans.len() as int);
    assert(spans.take(spans.len() as int) =~= spans);
    assert(bytes.take(span_bytes(spans)) =~= bytes);
}

proof fn lemma_read_back(memory: Seq<Seq<u8>>, spans: Seq<Span>, bytes: Seq<u8>, n: int)
    requires
        0 <= n <= spans.len(),
        all_inside(spans),
        backs(memory, spans),
        disjoint(spans),
        span_bytes(spans) <= bytes.len(),
    ensures
        gathered(scattered(memory, spans, bytes), spans.take(n)) == bytes.take(
            span_bytes(spans.take(n)),
        ),
    decreases n,
{
    lemma_bytes_grow(spans, n);
    if n > 0 {
        lemma_read_back(memory, spans, bytes, n - 1);
        lemma_bytes_grow(spans, n - 1);
        let s = spans[n - 1];
        let after = scattered(memory, spans, bytes);
        let at = span_bytes(spans.take(n - 1));
        assert(spans.take(n).drop_last() =~= spans.take(n - 1));
        assert(spans.take(n).last() == s);
        assert(inside(s));
        lemma_scattered_shape(memory, spans, bytes);
        let run = after[s.buffer.id as int].subrange(s.offset as int, s.offset + s.len);
        assert forall|i: int| 0 <= i < s.len implies #[trigger] run[i] == bytes[at + i] by {
            lemma_written(memory, spans, bytes, spans.len() as int, n - 1, i);
            assert(spans.take(spans.len() as int) =~= spans);
        }
        assert(bytes.take(at + s.len) =~= bytes.take(at) + bytes.subrange(at, at + s.len));
        assert(run =~= bytes.subrange(at, at + s.len));
    } else {
        assert(spans.take(0) =~= Seq::<Span>::empty());
        assert(bytes.take(0) =~= Seq::<u8>::empty());
    }
}

/// Byte `i` of span `k` after the first `n` spans have been written.
proof fn lemma_written(memory: Seq<Seq<u8>>, spans: Seq<Span>, bytes: Seq<u8>, n: int, k: int, i: int)
    requires
        0 <= k < n <= spans.len(),
        all_inside(spans),
        backs(memory, spans),
        disjoint(spans),
        span_bytes(spans) <= bytes.len(),
        0 <= i < spans[k].len,
    ensures
        scattered(memory, spans.take(n), bytes)[spans[k].buffer.id as int][spans[k].offset + i]
            == bytes[span_bytes(spans.take(k)) + i],
    decreases n,
{
    let now = spans.take(n);
    let s = spans[n - 1];
    assert(now.drop_last() =~= spans.take(n - 1));
    assert(now.last() == s);
    assert(inside(spans[k]));
    assert(inside(s));
    assert(backs(memory, now)) by {
        assert forall|j: int| 0 <= j < now.len() implies ({
            let b = (#[trigger] now[j]).buffer;
            b.id < memory.len() && memory[b.id as int].len() == b.len
        }) by {
            assert(now[j] == spans[j]);
        }
    }
    lemma_sub(memory, now);
    lemma_scattered_shape(memory, spans.take(n - 1), bytes);
    lemma_bytes_grow(spans, n - 1);
    lemma_bytes_grow(spans, n);
    if k < n - 1 {
        lemma_written(memory, spans, bytes, n - 1, k, i);
        assert(apart(spans[k], spans[n - 1]));
    } else {
        let at = span_bytes(spans.take(n - 1));
        assert(bytes.subrange(at, at + s.len)[i] == bytes[at + i]);
    }
}

impl Memory {
    /// Read spans into a checkpoint.
    pub fn gather(&self, spans: &Vec<Span>) -> (r: Vec<u8>)
        requires
            all_inside(spans@),
            backs(self@, spans@),
        ensures
            r@ == gathered(self@, spans@),
    {
        let mut out: Vec<u8> = Vec::new();
        let mut i: usize = 0;
        assert(spans@.take(0) =~= Seq::<Span>::empty());
        while i < spans.len()
            invariant
                i <= spans.len(),
                all_inside(spans@),
                backs(self@, spans@),
                out@ == gathered(self@, spans@.take(i as int)),
            decreases spans.len() - i,
        {
            let s = spans[i];
            let ghost before = out@;
            proof {
                assert(spans@.take(i + 1).drop_last() =~= spans@.take(i as int));
                assert(spans@.take(i + 1).last() == s);
                assert(spans@[i as int] == s);
                assert(inside(s));
                assert(self@[s.buffer.id as int] == self.buffers[s.buffer.id as int]@);
            }
            let b = &self.buffers[s.buffer.id as usize];
            let from: usize = s.offset as usize;
            let n: usize = s.len as usize;
            let mut j: usize = 0;
            assert(out@ =~= before + b@.subrange(from as int, from as int));
            while j < n
                invariant
                    j <= n,
                    from + n <= b.len(),
                    out@ == before + b@.subrange(from as int, from + j),
                decreases n - j,
            {
                out.push(b[from + j]);
                assert(out@ =~= before + b@.subrange(from as int, from + j + 1));
                j = j + 1;
            }
            i = i + 1;
        }
        assert(spans@.take(spans.len() as int) =~= spans@);
        out
    }

    /// Write a checkpoint to spans, or nothing at all.
    pub fn scatter(&mut self, spans: &Vec<Span>, bytes: &Vec<u8>) -> (r: Result<(), MetalError>)
        requires
            backs(old(self)@, spans@),
        ensures
            if restorable(spans@, bytes.len() as int) {
                r is Ok && final(self)@ == scattered(old(self)@, spans@, bytes@)
            } else {
                r == Err::<(), MetalError>(MetalError::Model(Fault::Checkpoint)) && final(self)@
                    == old(self)@
            },
    {
        let copies = match restore(spans, bytes.len() as u64) {
            Ok(c) => c,
            Err(e) => {
                return Err(e);
            },
        };
        let ghost start = self@;
        let mut i: usize = 0;
        assert(spans@.take(0) =~= Seq::<Span>::empty());
        while i < spans.len()
            invariant
                i <= spans.len(),
                copies@ == regions(spans@),
                restorable(spans@, bytes.len() as int),
                backs(start, spans@),
                self@ == scattered(start, spans@.take(i as int), bytes@),
                self@.len() == start.len(),
                forall|k: int| 0 <= k < start.len() ==> (#[trigger] self@[k]).len() == start[k].len(),
            decreases spans.len() - i,
        {
            let s = spans[i];
            proof {
                let now = spans@.take(i + 1);
                assert(now.drop_last() =~= spans@.take(i as int));
                assert(now.last() == s);
                assert(spans@[i as int] == s);
                assert(inside(s));
                lemma_bytes_grow(spans@, i as int);
                lemma_bytes_grow(spans@, i + 1);
                assert(copies[i as int] == regions(spans@)[i as int]);
                assert(self@[s.buffer.id as int] == self.buffers[s.buffer.id as int]@);
            }
            let at: usize = copies[i].at as usize;
            let id: usize = s.buffer.id as usize;
            let from: usize = s.offset as usize;
            let n: usize = s.len as usize;
            let ghost before = self@;
            let ghost old_buffers = self.buffers@;
            let mut buffer: Vec<u8> = Vec::new();
            std::mem::swap(&mut self.buffers[id], &mut buffer);
            let ghost b0 = buffer@;
            let ghost part = bytes@.subrange(at as int, at + n);
            let mut j: usize = 0;
            assert(buffer@ =~= patched(b0, from as int, part.take(0)));
            while j < n
                invariant
                    j <= n,
                    at + n <= bytes.len(),
                    buffer.len() == b0.len(),
                    from + n <= b0.len(),
                    part == bytes@.subrange(at as int, at + n),
                    buffer@ == patched(b0, from as int, part.take(j as int)),
                decreases n - j,
            {
                buffer.set(from + j, bytes[at + j]);
                assert(buffer@ =~= patched(b0, from as int, part.take(j + 1)));
                j = j + 1;
            }
            assert(part.take(n as int) =~= part);
            std::mem::swap(&mut self.buffers[id], &mut buffer);
            proof {
                assert(self.buffers@ =~= old_buffers.update(id as int, self.buffers[id as int]));
                assert(self@ =~= before.update(id as int, patched(b0, from as int, part)));
            }
            i = i + 1;
        }
        assert(spans@.take(spans.len() as int) =~= spans@);
        Ok(())
    }
}

/// What identifies a version of a file: device, inode, size and times.
#[derive(Clone, Copy, Debug, PartialEq, Eq, Structural)]
pub struct FileVersion {
    pub device: u64,
    pub inode: u64,
    pub size: u64,
    pub modified: i64,
    pub modified_nanos: i64,
    pub changed: i64,
    pub changed_nanos: i64,
}

/// The files of a checkpoint are still those that were loaded.
pub fn require_unchanged(loaded: &Vec<FileVersion>, now: &Vec<FileVersion>) -> (r: Result<(), MetalError>)
    ensures
        r == if loaded@ == now@ {
            Ok::<(), MetalError>(())
        } else {
            Err::<(), MetalError>(MetalError::Model(Fault::Changed))
        },
{
    if loaded.len() != now.len() {
        return Err(MetalError::Model(Fault::Changed));
    }
    let mut i: usize = 0;
    while i < loaded.len()
        invariant
            i <= loaded.len() == now.len(),
            forall|j: int| 0 <= j < i ==> #[trigger] loaded[j] == now[j],
        decreases loaded.len() - i,
    {
        if loaded[i] != now[i] {
            return Err(MetalError::Model(Fault::Changed));
        }
        i = i + 1;
    }
    assert(loaded@ =~= now@);
    Ok(())
}

/// Where saved state is found again: the identity of the checkpoint that it
/// belongs to, and the one trust domain that may read it.
#[derive(Debug, PartialEq, Eq)]
pub struct Namespace {
    pub identity: [u8; 32],
    pub scope: Vec<u8>,
}

/// A commitment to a layout, the code that reads it and every byte of the
/// checkpoint's files, fed piece by piece.
#[derive(Debug)]
pub struct Identity {
    pub hasher: blake3::Hasher,
}

impl Identity {
    /// What has been fed so far.
    pub open spec fn fed(&self) -> Seq<u8> {
        absorbed(self.hasher)
    }

    pub open spec fn wf(&self) -> bool {
        domain(self.hasher) == "paddock metal checkpoint identity v1"@
    }

    /// The layout, then every source text behind its length.
    pub fn begin(layout: &[u8], sources: &Vec<Vec<u8>>) -> (r: Self)
        ensures
            r.wf(),
            r.fed() == committed_sources(layout@, sources@, sources.len() as int),
    {
        let mut hasher = new_derive_key("paddock metal checkpoint identity v1");
        update(&mut hasher, layout);
        assert(absorbed(hasher) =~= layout@);
        let mut h = Identity { hasher };
        let mut i: usize = 0;
        while i < sources.len()
            invariant
                i <= sources.len(),
                h.wf(),
                h.fed() == committed_sources(layout@, sources@, i as int),
            decreases sources.len() - i,
        {
            h.file(sources[i].len() as u64);
            h.bytes(sources[i].as_slice());
            i = i + 1;
        }
        h
    }

    /// A path of so many files follows.
    pub fn path(&mut self, files: u64)
        requires
            old(self).wf(),
        ensures
            final(self).wf(),
            final(self).fed() == old(self).fed() + spec_u64_to_le_bytes(files),
    {
        let count = u64_to_le_bytes(files);
        update(&mut self.hasher, count.as_slice());
    }

    /// A file of so many bytes follows.
    pub fn file(&mut self, bytes: u64)
        requires
            old(self).wf(),
        ensures
            final(self).wf(),
            final(self).fed() == old(self).fed() + spec_u64_to_le_bytes(bytes),
    {
        let size = u64_to_le_bytes(bytes);
        update(&mut self.hasher, size.as_slice());
    }

    /// More bytes of a file.
    pub fn bytes(&mut self, part: &[u8])
        requires
            old(self).wf(),
        ensures
            final(self).wf(),
            final(self).fed() == old(self).fed() + part@,
    {
        update(&mut self.hasher, part);
    }

    /// The namespace of what has been fed, in one trust domain.
    pub fn finish(&self, scope: Vec<u8>) -> (r: Namespace)
        requires
            self.wf(),
        ensures
            r.identity@ == blake3_derived("paddock metal checkpoint identity v1"@, self.fed()),
            r.scope == scope,
    {
        Namespace { identity: finalize(&self.hasher), scope }
    }
}

/// What a namespace commits to: the layout, every source behind its length,
/// and of every path the number of its files and each file behind its length.
pub open spec fn commitment(layout: Seq<u8>, sources: Seq<Vec<u8>>, paths: Seq<Vec<Vec<u8>>>) -> Seq<u8> {
    committed_paths(
        committed_sources(layout, sources, sources.len() as int),
        paths,
        paths.len() as int,
    )
}

pub open spec fn framed(start: Seq<u8>, bytes: Seq<u8>) -> Seq<u8> {
    start + spec_u64_to_le_bytes(bytes.len() as u64) + bytes
}

pub open spec fn committed_sources(start: Seq<u8>, sources: Seq<Vec<u8>>, n: int) -> Seq<u8>
    decreases n,
{
    if n <= 0 {
        start
    } else {
        framed(committed_sources(start, sources, n - 1), sources[n - 1]@)
    }
}

pub open spec fn committed_paths(start: Seq<u8>, paths: Seq<Vec<Vec<u8>>>, n: int) -> Seq<u8>
    decreases n,
{
    if n <= 0 {
        start
    } else {
        let files = paths[n - 1]@;
        committed_sources(
            committed_paths(start, paths, n - 1) + spec_u64_to_le_bytes(files.len() as u64),
            files,
            files.len() as int,
        )
    }
}

/// The namespace of a checkpoint: a commitment to its whole content, not to
/// paths or times, in the trust domain of its owner. It survives a restart.
pub fn namespace(layout: &[u8], sources: &Vec<Vec<u8>>, paths: &Vec<Vec<Vec<u8>>>, scope: Vec<u8>) -> (r:
    Namespace)
    ensures
        r.identity@ == blake3_derived(
            "paddock metal checkpoint identity v1"@,
            commitment(layout@, sources@, paths@),
        ),
        r.scope == scope,
{
    let mut h = Identity::begin(layout, sources);
    let ghost start = h.fed();
    let mut k: usize = 0;
    while k < paths.len()
        invariant
            k <= paths.len(),
            h.wf(),
            h.fed() == committed_paths(start, paths@, k as int),
        decreases paths.len() - k,
    {
        let files = &paths[k];
        h.path(files.len() as u64);
        let ghost from = h.fed();
        let mut j: usize = 0;
        while j < files.len()
            invariant
                j <= files.len(),
                h.wf(),
                h.fed() == committed_sources(from, files@, j as int),
            decreases files.len() - j,
        {
            h.file(files[j].len() as u64);
            h.bytes(files[j].as_slice());
            j = j + 1;
        }
        k = k + 1;
    }
    h.finish(scope)
}

proof fn lemma_frame(start: Seq<u8>, list: Seq<Vec<u8>>, k: int, n: int)
    requires
        0 <= k <= n,
    ensures
        ({
            let c = committed_sources(start, list, k);
            let t = committed_sources(start, list, n);
            &&& c.len() <= t.len()
            &&& t.take(c.len() as int) == c
        }),
    decreases n - k,
{
    let c = committed_sources(start, list, k);
    if k < n {
        lemma_frame(start, list, k, n - 1);
        let u = committed_sources(start, list, n - 1);
        let t = committed_sources(start, list, n);
        assert(t.take(c.len() as int) =~= u.take(c.len() as int));
    } else {
        assert(c.take(c.len() as int) =~= c);
    }
}

/// `t` begins with `p`.
spec fn begins(t: Seq<u8>, p: Seq<u8>) -> bool {
    p.len() <= t.len() && t.take(p.len() as int) == p
}

proof fn lemma_begins(t: Seq<u8>, q: Seq<u8>, p: Seq<u8>)
    requires
        begins(t, q),
        begins(q, p),
    ensures
        begins(t, p),
{
    assert(t.take(p.len() as int) =~= q.take(p.len() as int));
}

/// Two numbers read at one place are one number.
proof fn lemma_number(t: Seq<u8>, c: Seq<u8>, x: u64, y: u64)
    requires
        begins(t, c + spec_u64_to_le_bytes(x)),
        begins(t, c + spec_u64_to_le_bytes(y)),
    ensures
        x == y,
{
    vstd::bytes::lemma_auto_spec_u64_to_from_le_bytes();
    let m = c.len() as int;
    let p = c + spec_u64_to_le_bytes(x);
    let q = c + spec_u64_to_le_bytes(y);
    assert(spec_u64_to_le_bytes(x) =~= p.subrange(m, m + 8));
    assert(spec_u64_to_le_bytes(y) =~= q.subrange(m, m + 8));
    assert(p =~= q);
}

/// Files read from one place in one sequence of bytes are the same files.
proof fn lemma_files(start: Seq<u8>, a: Seq<Vec<u8>>, b: Seq<Vec<u8>>, n: int, t: Seq<u8>)
    requires
        0 <= n <= a.len(),
        n <= b.len(),
        begins(t, committed_sources(start, a, n)),
        begins(t, committed_sources(start, b, n)),
    ensures
        committed_sources(start, a, n) == committed_sources(start, b, n),
        forall|i: int| 0 <= i < n ==> (#[trigger] a[i])@ == b[i]@,
    decreases n,
{
    if n > 0 {
        vstd::bytes::lemma_auto_spec_u64_to_from_le_bytes();
        lemma_frame(start, a, n - 1, n);
        lemma_frame(start, b, n - 1, n);
        lemma_begins(t, committed_sources(start, a, n), committed_sources(start, a, n - 1));
        lemma_begins(t, committed_sources(start, b, n), committed_sources(start, b, n - 1));
        lemma_files(start, a, b, n - 1, t);
        let c = committed_sources(start, a, n - 1);
        let x = a[n - 1]@;
        let y = b[n - 1]@;
        let dx = spec_u64_to_le_bytes(x.len() as u64);
        let dy = spec_u64_to_le_bytes(y.len() as u64);
        let p = framed(c, x);
        let q = framed(c, y);
        assert(p.take((c + dx).len() as int) =~= c + dx);
        assert(q.take((c + dy).len() as int) =~= c + dy);
        lemma_begins(t, p, c + dx);
        lemma_begins(t, q, c + dy);
        assert(a[n - 1].len() == x.len() && b[n - 1].len() == y.len());
        lemma_number(t, c, x.len() as u64, y.len() as u64);
        assert(p.len() == q.len());
        assert(p == q);
        assert(p.skip(c.len() + 8int) =~= x);
        assert(q.skip(c.len() + 8int) =~= y);
    }
}

proof fn lemma_paths(start: Seq<u8>, a: Seq<Vec<Vec<u8>>>, b: Seq<Vec<Vec<u8>>>, n: int, t: Seq<u8>)
    requires
        0 <= n <= a.len(),
        n <= b.len(),
        begins(t, committed_paths(start, a, n)),
        begins(t, committed_paths(start, b, n)),
    ensures
        committed_paths(start, a, n) == committed_paths(start, b, n),
        forall|i: int| 0 <= i < n ==> same_files((#[trigger] a[i])@, b[i]@),
    decreases n,
{
    if n > 0 {
        let x = a[n - 1]@;
        let y = b[n - 1]@;
        let dx = spec_u64_to_le_bytes(x.len() as u64);
        let dy = spec_u64_to_le_bytes(y.len() as u64);
        let c = committed_paths(start, a, n - 1);
        let e = committed_paths(start, b, n - 1);
        lemma_frame(c + dx, x, 0, x.len() as int);
        lemma_frame(e + dy, y, 0, y.len() as int);
        lemma_begins(t, committed_paths(start, a, n), c + dx);
        lemma_begins(t, committed_paths(start, b, n), e + dy);
        assert((c + dx).take(c.len() as int) =~= c);
        assert((e + dy).take(e.len() as int) =~= e);
        lemma_begins(t, c + dx, c);
        lemma_begins(t, e + dy, e);
        lemma_paths(start, a, b, n - 1, t);
        assert(a[n - 1].len() == x.len() && b[n - 1].len() == y.len());
        lemma_number(t, c, x.len() as u64, y.len() as u64);
        lemma_files(c + dx, x, y, x.len() as int, t);
    }
}

/// Two lists of files of the same bytes.
pub open spec fn same_files(a: Seq<Vec<u8>>, b: Seq<Vec<u8>>) -> bool {
    &&& a.len() == b.len()
    &&& forall|i: int| 0 <= i < a.len() ==> (#[trigger] a[i])@ == b[i]@
}

/// Two lists of paths with the same files.
pub open spec fn same_paths(a: Seq<Vec<Vec<u8>>>, b: Seq<Vec<Vec<u8>>>) -> bool {
    &&& a.len() == b.len()
    &&& forall|i: int| 0 <= i < a.len() ==> same_files((#[trigger] a[i])@, b[i]@)
}

/// Every path adds at least its count.
proof fn lemma_paths_grow(start: Seq<u8>, paths: Seq<Vec<Vec<u8>>>, k: int, n: int)
    requires
        0 <= k <= n,
    ensures
        begins(committed_paths(start, paths, n), committed_paths(start, paths, k)),
        committed_paths(start, paths, k).len() + (n - k) * 8 <= committed_paths(start, paths, n).len(),
    decreases n - k,
{
    if k < n {
        vstd::bytes::lemma_auto_spec_u64_to_from_le_bytes();
        let c = committed_paths(start, paths, n - 1);
        let files = paths[n - 1]@;
        let d = c + spec_u64_to_le_bytes(files.len() as u64);
        lemma_paths_grow(start, paths, k, n - 1);
        assert(d.take(c.len() as int) =~= c);
        lemma_frame(d, files, 0, files.len() as int);
        lemma_begins(committed_paths(start, paths, n), d, c);
        lemma_begins(committed_paths(start, paths, n), c, committed_paths(start, paths, k));
    } else {
        let c = committed_paths(start, paths, n);
        assert(c.take(c.len() as int) =~= c);
    }
}

proof fn lemma_same_files(start: Seq<u8>, a: Seq<Vec<u8>>, b: Seq<Vec<u8>>, n: int)
    requires
        same_files(a, b),
        0 <= n <= a.len(),
    ensures
        committed_sources(start, a, n) == committed_sources(start, b, n),
    decreases n,
{
    if n > 0 {
        lemma_same_files(start, a, b, n - 1);
        assert(a[n - 1]@ == b[n - 1]@);
    }
}

proof fn lemma_same_paths(start: Seq<u8>, a: Seq<Vec<Vec<u8>>>, b: Seq<Vec<Vec<u8>>>, n: int)
    requires
        same_paths(a, b),
        0 <= n <= a.len(),
    ensures
        committed_paths(start, a, n) == committed_paths(start, b, n),
    decreases n,
{
    if n > 0 {
        lemma_same_paths(start, a, b, n - 1);
        assert(same_files(a[n - 1]@, b[n - 1]@));
        lemma_same_files(
            committed_paths(start, a, n - 1) + spec_u64_to_le_bytes(a[n - 1]@.len() as u64),
            a[n - 1]@,
            b[n - 1]@,
            a[n - 1]@.len() as int,
        );
    }
}

/// One content has one commitment, wherever its files lie and whenever they
/// were written.
pub proof fn equal_content_has_one_commitment(
    layout: Seq<u8>,
    s: Seq<Vec<u8>>,
    a: Seq<Vec<Vec<u8>>>,
    r: Seq<Vec<u8>>,
    b: Seq<Vec<Vec<u8>>>,
)
    requires
        same_files(s, r),
        same_paths(a, b),
    ensures
        commitment(layout, s, a) == commitment(layout, r, b),
{
    lemma_same_files(layout, s, r, s.len() as int);
    lemma_same_paths(committed_sources(layout, s, s.len() as int), a, b, a.len() as int);
}

/// Under one layout, and for as many sources, one commitment means one
/// content: no path or file can be added, no byte of a source or a checkpoint
/// file can change, nor move from one file or path into the next, without
/// changing what is hashed.
pub proof fn equal_commitments_mean_equal_files(
    layout: Seq<u8>,
    s: Seq<Vec<u8>>,
    a: Seq<Vec<Vec<u8>>>,
    r: Seq<Vec<u8>>,
    b: Seq<Vec<Vec<u8>>>,
)
    requires
        s.len() == r.len(),
        commitment(layout, s, a) == commitment(layout, r, b),
    ensures
        same_files(s, r),
        same_paths(a, b),
{
    let t = commitment(layout, s, a);
    let x = committed_sources(layout, s, s.len() as int);
    let y = committed_sources(layout, r, r.len() as int);
    lemma_paths_grow(x, a, 0, a.len() as int);
    lemma_paths_grow(y, b, 0, b.len() as int);
    lemma_files(layout, s, r, s.len() as int, t);
    let n: int = if a.len() <= b.len() { a.len() as int } else { b.len() as int };
    lemma_paths_grow(x, a, n, a.len() as int);
    lemma_paths_grow(x, b, n, b.len() as int);
    lemma_paths(x, a, b, n, t);
}

/// Bytes of a text: none of them is zero.
pub open spec fn text(bytes: Seq<u8>) -> bool {
    forall|i: int| 0 <= i < bytes.len() ==> #[trigger] bytes[i] != 0
}

/// A source text as a program has one: at least a word, and less than a
/// machine holds.
pub open spec fn plain_source(bytes: Seq<u8>) -> bool {
    &&& text(bytes)
    &&& 8 <= bytes.len() < 0x100_0000_0000_0000
}

proof fn lemma_top_byte(x: u64)
    requires
        x < 0x100_0000_0000_0000,
    ensures
        spec_u64_to_le_bytes(x).len() == 8,
        spec_u64_to_le_bytes(x)[7] == 0,
{
    vstd::bytes::spec_u64_to_le_bytes_to_open(x);
    assert((x >> 56) & 0xff == 0) by (bit_vector)
        requires
            x < 0x100_0000_0000_0000,
    ;
}

/// Where the first source begins is where the layout ends.
proof fn lemma_layout_end(t: Seq<u8>, l: Seq<u8>, x: Seq<u8>, m: Seq<u8>, y: Seq<u8>)
    requires
        text(m),
        plain_source(x),
        plain_source(y),
        begins(t, framed(l, x)),
        begins(t, framed(m, y)),
    ensures
        m.len() <= l.len(),
{
    lemma_top_byte(x.len() as u64);
    lemma_top_byte(y.len() as u64);
    let p = framed(l, x);
    let q = framed(m, y);
    if l.len() < m.len() {
        let k = m.len() - l.len();
        assert(t.take(p.len() as int)[l.len() + 7int] == 0);
        assert(t[l.len() + 7int] == 0);
        if k >= 8 {
            assert(t.take(q.len() as int)[l.len() + 7int] == m[l.len() + 7int]);
            assert(m[l.len() + 7int] != 0);
        } else {
            assert(t.take(q.len() as int)[m.len() + 7int] == 0);
            assert(t.take(p.len() as int)[l.len() + 8 + (k - 1)] == x[k - 1]);
            assert(x[k - 1] != 0);
        }
        assert(false);
    }
}

/// Another layout is another commitment too. A layout is a text, and so are
/// the sources behind it: what follows the layout is the length of the first
/// source, which no text can be taken for.
pub proof fn equal_commitments_mean_equal_layouts(
    l: Seq<u8>,
    s: Seq<Vec<u8>>,
    a: Seq<Vec<Vec<u8>>>,
    m: Seq<u8>,
    r: Seq<Vec<u8>>,
    b: Seq<Vec<Vec<u8>>>,
)
    requires
        s.len() == r.len(),
        0 < s.len(),
        text(l),
        text(m),
        plain_source(s[0]@),
        plain_source(r[0]@),
        commitment(l, s, a) == commitment(m, r, b),
    ensures
        l == m,
        same_files(s, r),
        same_paths(a, b),
{
    let t = commitment(l, s, a);
    let x = committed_sources(l, s, s.len() as int);
    let y = committed_sources(m, r, r.len() as int);
    lemma_paths_grow(x, a, 0, a.len() as int);
    lemma_paths_grow(y, b, 0, b.len() as int);
    lemma_frame(l, s, 1, s.len() as int);
    lemma_frame(m, r, 1, r.len() as int);
    reveal_with_fuel(committed_sources, 2);
    let p = framed(l, s[0]@);
    let q = framed(m, r[0]@);
    lemma_begins(t, x, p);
    lemma_begins(t, y, q);
    lemma_layout_end(t, l, s[0]@, m, r[0]@);
    lemma_layout_end(t, m, r[0]@, l, s[0]@);
    assert(p.take(l.len() as int) =~= l);
    assert(q.take(m.len() as int) =~= m);
    lemma_begins(t, p, l);
    lemma_begins(t, q, m);
    assert(l =~= m);
    equal_commitments_mean_equal_files(l, s, a, r, b);
}

/// Behind the shorter of two layouts stands what the longer one holds: a
/// length without zeros.
proof fn lemma_no_zero(t: Seq<u8>, l: Seq<u8>, m: Seq<u8>, d: Seq<u8>, j: int)
    requires
        l.len() < m.len(),
        text(m),
        d.len() == 8,
        begins(t, l + d),
        begins(t, m + d),
        0 <= j < 8,
    ensures
        d[j] != 0,
    decreases j,
{
    let k = m.len() - l.len();
    let at = l.len() + j;
    assert(t.take((l + d).len() as int)[at] == d[j]);
    if j >= k {
        assert(t.take((m + d).len() as int)[at] == d[j - k]);
        lemma_no_zero(t, l, m, d, j - k);
    } else {
        assert(t.take((m + d).len() as int)[at] == m[at]);
        assert(m[at] != 0);
    }
}

/// One program, with the same sources, tells any two layouts apart.
pub proof fn one_program_tells_layouts_apart(
    l: Seq<u8>,
    m: Seq<u8>,
    s: Seq<Vec<u8>>,
    a: Seq<Vec<Vec<u8>>>,
    b: Seq<Vec<Vec<u8>>>,
)
    requires
        text(l),
        text(m),
        0 < s.len(),
        s[0].len() < 0x100_0000_0000_0000,
        commitment(l, s, a) == commitment(m, s, b),
    ensures
        l == m,
        same_paths(a, b),
{
    let t = commitment(l, s, a);
    let x = committed_sources(l, s, s.len() as int);
    let y = committed_sources(m, s, s.len() as int);
    let d = spec_u64_to_le_bytes(s[0]@.len() as u64);
    lemma_paths_grow(x, a, 0, a.len() as int);
    lemma_paths_grow(y, b, 0, b.len() as int);
    lemma_frame(l, s, 1, s.len() as int);
    lemma_frame(m, s, 1, s.len() as int);
    reveal_with_fuel(committed_sources, 2);
    lemma_top_byte(s[0]@.len() as u64);
    let p = framed(l, s[0]@);
    let q = framed(m, s[0]@);
    assert(p.take((l + d).len() as int) =~= l + d);
    assert(q.take((m + d).len() as int) =~= m + d);
    lemma_begins(t, x, p);
    lemma_begins(t, y, q);
    lemma_begins(t, p, l + d);
    lemma_begins(t, q, m + d);
    if l.len() < m.len() {
        lemma_no_zero(t, l, m, d, 7);
    }
    if m.len() < l.len() {
        lemma_no_zero(t, m, l, d, 7);
    }
    assert((l + d).take(l.len() as int) =~= l);
    assert((m + d).take(m.len() as int) =~= m);
    lemma_begins(t, l + d, l);
    lemma_begins(t, m + d, m);
    assert(l =~= m);
    equal_commitments_mean_equal_files(l, s, a, s, b);
}

/// The trust domain of an endpoint commits its port and its credential: one
/// preimage means one endpoint.
pub proof fn equal_scopes_mean_equal_endpoints(p: u16, k: Seq<u8>, q: u16, m: Seq<u8>)
    requires
        spec_u16_to_le_bytes(p) + k == spec_u16_to_le_bytes(q) + m,
    ensures
        p == q,
        k == m,
{
    vstd::bytes::lemma_auto_spec_u16_to_from_le_bytes();
    let x = spec_u16_to_le_bytes(p) + k;
    let y = spec_u16_to_le_bytes(q) + m;
    assert(x.take(2) =~= spec_u16_to_le_bytes(p));
    assert(y.take(2) =~= spec_u16_to_le_bytes(q));
    assert(x.skip(2) =~= k);
    assert(y.skip(2) =~= m);
}

/// A file may be read in pieces of any size.
pub proof fn pieces_count_as_one(start: Seq<u8>, a: Seq<u8>, b: Seq<u8>)
    ensures
        (start + a) + b == start + (a + b),
{
    assert((start + a) + b =~= start + (a + b));
}

} // verus!
