//! Memory scanning: which regions are scanned, how a region is read in
//! chunks, and where in the bytes read the wanted value occurs.
use vstd::prelude::*;
use crate::text;
use crate::types::EValueType;

verus! {

// ---------------------------------------------------------------------------
// Regions
// ---------------------------------------------------------------------------

/// `MEM_COMMIT` of windows-sys, the state of committed pages (0x1000 there).
#[verifier::external_body]
fn mem_commit() -> (r: u32)
    ensures
        r == 0x1000,
{
    windows_sys::Win32::System::Memory::MEM_COMMIT
}

/// `MEM_PRIVATE` of windows-sys, the type of private pages (0x20000 there).
#[verifier::external_body]
fn mem_private() -> (r: u32)
    ensures
        r == 0x20000,
{
    windows_sys::Win32::System::Memory::MEM_PRIVATE
}

/// `PAGE_GUARD` of windows-sys, the guard-page protection flag (0x100 there).
#[verifier::external_body]
fn page_guard() -> (r: u32)
    ensures
        r == 0x100,
{
    windows_sys::Win32::System::Memory::PAGE_GUARD
}

/// `PAGE_NOACCESS` of windows-sys, the no-access protection flag (0x1 there).
#[verifier::external_body]
fn page_noaccess() -> (r: u32)
    ensures
        r == 0x1,
{
    windows_sys::Win32::System::Memory::PAGE_NOACCESS
}

/// A region of a process's address space, as `VirtualQueryEx` describes it.
#[derive(Debug, Clone)]
pub struct MemoryRegion {
    pub base_address: usize,
    pub allocation_base: usize,
    pub region_size: usize,
    pub state: u32,
    pub protect: u32,
    pub region_type: u32,
}

/// Committed, and neither a guard page nor closed to access.
pub open spec fn readable(r: MemoryRegion) -> bool {
    &&& r.state == 0x1000
    &&& r.protect & 0x100 == 0
    &&& r.protect & 0x1 == 0
}

/// The regions that a full scan reads: readable private memory.
pub open spec fn scannable(r: MemoryRegion) -> bool {
    &&& readable(r)
    &&& r.region_type == 0x20000
}

/// The region lies within the address space: its last byte has an address.
pub open spec fn in_address_space(r: MemoryRegion) -> bool {
    r.base_address + r.region_size <= usize::MAX + 1
}

/// Whether the region lies within the address space.
pub fn region_in_address_space(region: &MemoryRegion) -> (r: bool)
    ensures
        r == in_address_space(*region),
{
    region.region_size == 0 || region.base_address <= usize::MAX - (region.region_size - 1)
}

/// Whether the pages of a region can be read.
pub fn is_region_readable(region: &MemoryRegion) -> (r: bool)
    ensures
        r == readable(*region),
{
    if region.state != mem_commit() {
        return false;
    }
    if region.protect & page_guard() != 0 {
        return false;
    }
    if region.protect & page_noaccess() != 0 {
        return false;
    }
    true
}

/// Whether a full scan reads the region.
pub fn is_scannable_region(region: &MemoryRegion) -> (r: bool)
    ensures
        r == scannable(*region),
{
    is_region_readable(region) && region.region_type == mem_private()
}

/// Only committed private pages that are neither guard pages nor closed to
/// access are scanned: a region of any other type or state, or with either
/// flag, is never entered, and every region that has all four is.
pub proof fn lemma_scanned_regions_are_private(r: MemoryRegion)
    ensures
        r.region_type != 0x20000 ==> !scannable(r),
        r.state != 0x1000 ==> !scannable(r),
        r.protect & 0x100 != 0 ==> !scannable(r),
        r.protect & 0x1 != 0 ==> !scannable(r),
        (r.region_type == 0x20000 && r.state == 0x1000 && r.protect & 0x100 == 0 && r.protect & 0x1 == 0)
            ==> scannable(r),
{
}

/// The address where the next query of the address space starts, after a
/// query at `addr` described the region `base..base + size`; `None` where
/// the walk has to stop because the next address would not lie past `addr`.
pub fn next_query_address(addr: usize, base: usize, size: usize) -> (r: Option<usize>)
    ensures
        match r {
            Some(next) => next > addr && next as int == (if base + size > usize::MAX {
                usize::MAX as int
            } else {
                base + size
            }),
            None => (if base + size > usize::MAX {
                usize::MAX as int
            } else {
                base + size
            }) <= addr,
        },
{
    let next = base.saturating_add(size);
    if next <= addr {
        None
    } else {
        Some(next)
    }
}

// ---------------------------------------------------------------------------
// Scan results and messages
// ---------------------------------------------------------------------------

/// One address found by a scan, or one watched address.
#[derive(Debug, Clone)]
pub struct ResultRow {
    pub description: Option<String>,
    pub address: usize,
    pub value_type: EValueType,
    pub cached_value: String,
    pub is_frozen: bool,
    pub write_ok: Option<bool>,
    pub value_after_write: Option<String>,
    pub value_after_100ms: Option<String>,
    /// When to read the value back after a write, in milliseconds of the
    /// clock that the caller keeps.
    pub verify_after_at: Option<u64>,
}

impl ResultRow {
    /// A row for an address where a scan found the value that it shows as
    /// `cached_value`.
    pub fn found(address: usize, value_type: EValueType, cached_value: String) -> (r: Self)
        ensures
            r == (ResultRow {
                description: None,
                address,
                value_type,
                cached_value,
                is_frozen: false,
                write_ok: None,
                value_after_write: None,
                value_after_100ms: None,
                verify_after_at: None,
            }),
    {
        ResultRow {
            description: None,
            address,
            value_type,
            cached_value,
            is_frozen: false,
            write_ok: None,
            value_after_write: None,
            value_after_100ms: None,
            verify_after_at: None,
        }
    }
}

/// The scanner's input and results.
pub struct ScanState {
    pub input_value: String,
    pub results: Vec<ResultRow>,
    pub has_scan_session: bool,
    pub selected_value_type: EValueType,
    pub scan_results_count: usize,
    pub scan_results_count_input: String,
}

impl Default for ScanState {
    fn default() -> (r: Self)
        ensures
            r.input_value@ == Seq::<char>::empty(),
            r.results@ == Seq::<ResultRow>::empty(),
            !r.has_scan_session,
            r.selected_value_type == EValueType::I32,
            r.scan_results_count == 10_000,
            r.scan_results_count_input@ == "10000"@,
    {
        ScanState {
            input_value: String::new(),
            results: Vec::new(),
            has_scan_session: false,
            selected_value_type: EValueType::default(),
            scan_results_count: 10_000,
            scan_results_count_input: text::string_of("10000"),
        }
    }
}

/// What a scan running in the background reports.
pub enum ScanMessage {
    Started { total_regions: usize },
    Progress { scanned_regions: usize, found: usize },
    Found(ResultRow),
    Done { found: usize },
    Error(String),
}

/// The progress of a scan running in the background.
pub struct AsyncProcessScan {
    pub is_running: bool,
    pub total_regions: usize,
    pub scanned_regions: usize,
    pub total_found: usize,
}

impl Default for AsyncProcessScan {
    fn default() -> (r: Self)
        ensures
            !r.is_running,
            r.total_regions == 0,
            r.scanned_regions == 0,
            r.total_found == 0,
    {
        AsyncProcessScan { is_running: false, total_regions: 0, scanned_regions: 0, total_found: 0 }
    }
}

// ---------------------------------------------------------------------------
// Finding the value in the bytes read
// ---------------------------------------------------------------------------

/// The bytes of one chunk are read at most this many at a time.
pub const CHUNK_SIZE: usize = 64 * 1024;

/// How far apart the offsets are that a scan compares at: every byte for
/// text, the size of the value for the other types.
pub open spec fn scan_step(t: EValueType, n: nat) -> nat {
    if t.spec_is_text() {
        1
    } else {
        n
    }
}

/// `wanted` occurs in `scan` at offset `i`, and `i` is one of the offsets
/// compared: a multiple of `step`.
pub open spec fn is_hit(scan: Seq<u8>, wanted: Seq<u8>, step: nat, i: int) -> bool {
    &&& 0 <= i
    &&& i + wanted.len() <= scan.len()
    &&& i % (step as int) == 0
    &&& scan.subrange(i, i + wanted.len()) == wanted
}

/// `hits` lists, in increasing order, `base` plus every offset where `scan`
/// holds `wanted` at a multiple of `step`.
pub open spec fn lists_hits(
    hits: Seq<usize>,
    scan: Seq<u8>,
    wanted: Seq<u8>,
    step: nat,
    base: int,
) -> bool {
    &&& forall|k: int| 0 <= k < hits.len() ==> is_hit(scan, wanted, step, #[trigger] hits[k] - base)
    &&& forall|k: int, l: int| 0 <= k < l < hits.len() ==> hits[k] < hits[l]
    &&& forall|i: int| is_hit(scan, wanted, step, i) ==> hits.contains((base + i) as usize)
}

/// Whether `scan` holds `wanted` at offset `i`.
fn matches_at(scan: &Vec<u8>, wanted: &[u8], i: usize) -> (r: bool)
    requires
        i + wanted@.len() <= scan@.len(),
    ensures
        r == (scan@.subrange(i as int, i + wanted@.len()) == wanted@),
{
    let n = wanted.len();
    let len = scan.len();
    let mut k: usize = 0;
    while k < n
        invariant
            k <= n == wanted@.len(),
            len == scan@.len(),
            i + n <= len,
            forall|j: int| 0 <= j < k ==> scan@[i + j] == wanted@[j],
        decreases n - k,
    {
        if scan[i + k] != wanted[k] {
            assert(scan@.subrange(i as int, i + n)[k as int] != wanted@[k as int]);
            return false;
        }
        k += 1;
    }
    assert(scan@.subrange(i as int, i + n) == wanted@);
    true
}

/// `base` plus every offset, a multiple of `step`, where `scan` holds
/// `wanted`, in increasing order.
pub fn find_hits(scan: &Vec<u8>, wanted: &[u8], step: usize, base: usize) -> (hits: Vec<usize>)
    requires
        wanted@.len() >= 1,
        1 <= step <= wanted@.len(),
        base + scan@.len() <= usize::MAX + 1,
    ensures
        lists_hits(hits@, scan@, wanted@, step as nat, base as int),
{
    let n = wanted.len();
    let len = scan.len();
    let mut hits: Vec<usize> = Vec::new();
    if len < n {
        assert forall|i: int| !is_hit(scan@, wanted@, step as nat, i) by {}
        return hits;
    }
    let mut i: usize = 0;
    while i <= len - n
        invariant
            n == wanted@.len() >= 1,
            len == scan@.len() >= n,
            1 <= step <= n,
            base + len <= usize::MAX + 1,
            i % step == 0,
            i <= len - n + step,
            forall|k: int| 0 <= k < hits@.len() ==> is_hit(scan@, wanted@, step as nat, #[trigger] hits@[k] - base),
            forall|k: int| 0 <= k < hits@.len() ==> #[trigger] hits@[k] < base + i,
            forall|k: int, l: int| 0 <= k < l < hits@.len() ==> hits@[k] < hits@[l],
            forall|j: int| 0 <= j < i && is_hit(scan@, wanted@, step as nat, j) ==> hits@.contains((base + j) as usize),
        decreases len - i,
    {
        if matches_at(scan, wanted, i) {
            let ghost old_hits = hits@;
            hits.push(base + i);
            assert(hits@[hits@.len() - 1] == base + i);
            assert forall|j: int| 0 <= j < i + 1 && is_hit(scan@, wanted@, step as nat, j) implies hits@.contains((base + j) as usize) by {
                if j < i {
                    let w = choose|w: int| 0 <= w < old_hits.len() && old_hits[w] == (base + j) as usize;
                    assert(hits@[w] == old_hits[w]);
                } else {
                    assert(hits@[hits@.len() - 1] == (base + j) as usize);
                }
            }
        }
        assert forall|j: int| i < j < i + step implies !is_hit(scan@, wanted@, step as nat, j) by {
            assert(j % (step as int) != 0) by (nonlinear_arith)
                requires
                    (i as int) % (step as int) == 0,
                    (i as int) < j < i + step,
                    step >= 1,
            ;
        }
        assert((i + step) % (step as int) == 0) by (nonlinear_arith)
            requires
                (i as int) % (step as int) == 0,
                step >= 1,
        ;
        i = i + step;
    }
    assert forall|j: int| is_hit(scan@, wanted@, step as nat, j) implies hits@.contains((base + j) as usize) by {
        assert(j < i);
    }
    hits
}

// ---------------------------------------------------------------------------
// Reading a region in chunks
// ---------------------------------------------------------------------------

/// `row` is the row that a scan makes for a hit at `address`: no
/// description, not frozen, nothing written, and `display` shown as value.
pub open spec fn is_found_row(row: ResultRow, address: usize, t: EValueType, display: Seq<char>) -> bool {
    &&& row.description is None
    &&& row.address == address
    &&& row.value_type == t
    &&& row.cached_value@ == display
    &&& !row.is_frozen
    &&& row.write_ok is None
    &&& row.value_after_write is None
    &&& row.value_after_100ms is None
    &&& row.verify_after_at is None
}

/// The scan of one region, read one chunk at a time. For text the last
/// bytes of each chunk are kept and put in front of the next chunk, so a
/// value that straddles two chunks is found too.
pub struct RegionScan {
    base: usize,
    size: usize,
    offset: usize,
    carry_tail: Vec<u8>,
    value_type: EValueType,
}

/// The length of the chunk at `offset` in a region of `size` bytes.
pub open spec fn chunk_len(size: int, offset: int) -> int {
    if size - offset < CHUNK_SIZE {
        size - offset
    } else {
        CHUNK_SIZE as int
    }
}

/// The bytes a chunk is compared in: the kept bytes of the chunk before
/// (for text only) and then the bytes read.
pub open spec fn merged(t: EValueType, carry: Seq<u8>, bytes: Seq<u8>) -> Seq<u8> {
    if t.spec_is_text() && carry.len() > 0 {
        carry + bytes
    } else {
        bytes
    }
}

/// The address of the first of the merged bytes.
pub open spec fn merged_base(t: EValueType, carry: Seq<u8>, address: int) -> int {
    if t.spec_is_text() && carry.len() > 0 {
        if address >= carry.len() {
            address - carry.len()
        } else {
            0
        }
    } else {
        address
    }
}

/// The bytes kept for the next chunk: for text, the last `n - 1` of the
/// merged bytes (all of them where there are fewer); none otherwise.
pub open spec fn kept_tail(t: EValueType, scan: Seq<u8>, n: nat) -> Seq<u8> {
    if t.spec_is_text() && n > 1 {
        let k = if n - 1 < scan.len() {
            n - 1
        } else {
            scan.len() as int
        };
        scan.skip(scan.len() - k)
    } else {
        seq![]
    }
}

impl RegionScan {
    /// The first address of the region.
    pub closed spec fn spec_base(&self) -> int {
        self.base as int
    }

    /// The size of the region.
    pub closed spec fn spec_size(&self) -> int {
        self.size as int
    }

    /// How far into the region the scan has read.
    pub closed spec fn spec_offset(&self) -> int {
        self.offset as int
    }

    /// The bytes kept from the chunk before.
    pub closed spec fn spec_carry(&self) -> Seq<u8> {
        self.carry_tail@
    }

    /// The type of the value looked for.
    pub closed spec fn spec_value_type(&self) -> EValueType {
        self.value_type
    }

    /// The scan's own invariant.
    pub closed spec fn wf(&self) -> bool {
        &&& self.offset <= self.size
        &&& self.base + self.size <= usize::MAX + 1
        &&& self.carry_tail@.len() <= self.offset
    }

    /// A scan of `region` that has read nothing yet.
    pub fn new(region: &MemoryRegion, value_type: EValueType) -> (r: Self)
        requires
            in_address_space(*region),
        ensures
            r.wf(),
            r.spec_base() == region.base_address,
            r.spec_size() == region.region_size,
            r.spec_offset() == 0,
            r.spec_carry() == Seq::<u8>::empty(),
            r.spec_value_type() == value_type,
    {
        RegionScan {
            base: region.base_address,
            size: region.region_size,
            offset: 0,
            carry_tail: Vec::new(),
            value_type,
        }
    }

    /// Whether `found` plus the length of the next chunk and of the kept
    /// bytes stays within `usize`.
    fn fits_after(&self, found: usize) -> (r: bool)
        requires
            self.wf(),
        ensures
            r == (found + chunk_len(self.spec_size(), self.spec_offset()) + self.spec_carry().len()
                <= usize::MAX),
    {
        let len = if self.size - self.offset < CHUNK_SIZE {
            self.size - self.offset
        } else {
            CHUNK_SIZE
        };
        found <= usize::MAX - len && found + len <= usize::MAX - self.carry_tail.len()
    }

    /// The address and length of the next chunk to read, or `None` when the
    /// whole region has been read.
    pub fn next_chunk(&self) -> (r: Option<(usize, usize)>)
        requires
            self.wf(),
        ensures
            match r {
                Some((address, len)) => {
                    &&& self.spec_offset() < self.spec_size()
                    &&& address == self.spec_base() + self.spec_offset()
                    &&& len == chunk_len(self.spec_size(), self.spec_offset())
                },
                None => self.spec_offset() >= self.spec_size(),
            },
    {
        if self.offset < self.size {
            let len = if self.size - self.offset < CHUNK_SIZE {
                self.size - self.offset
            } else {
                CHUNK_SIZE
            };
            Some((self.base + self.offset, len))
        } else {
            None
        }
    }

    /// Takes the outcome of reading the next chunk (`None` where the read
    /// failed) and returns the addresses where `wanted` occurs in it, in
    /// increasing order. The scan moves on by the chunk's length whether or
    /// not the read gave all of its bytes.
    pub fn feed(&mut self, wanted: &[u8], read: Option<Vec<u8>>) -> (hits: Vec<usize>)
        requires
            old(self).wf(),
            old(self).spec_offset() < old(self).spec_size(),
            wanted@.len() >= 1,
            read matches Some(b) ==> b@.len() <= chunk_len(
                old(self).spec_size(),
                old(self).spec_offset(),
            ),
        ensures
            final(self).wf(),
            final(self).spec_base() == old(self).spec_base(),
            final(self).spec_size() == old(self).spec_size(),
            final(self).spec_value_type() == old(self).spec_value_type(),
            final(self).spec_offset() == old(self).spec_offset() + chunk_len(
                old(self).spec_size(),
                old(self).spec_offset(),
            ),
            match read {
                Some(b) => {
                    let t = old(self).spec_value_type();
                    let address = old(self).spec_base() + old(self).spec_offset();
                    let scan = merged(t, old(self).spec_carry(), b@);
                    &&& lists_hits(
                        hits@,
                        scan,
                        wanted@,
                        scan_step(t, wanted@.len()),
                        merged_base(t, old(self).spec_carry(), address),
                    )
                    &&& final(self).spec_carry() == kept_tail(t, scan, wanted@.len())
                },
                None => {
                    &&& hits@ == Seq::<usize>::empty()
                    &&& final(self).spec_carry() == Seq::<u8>::empty()
                },
            },
    {
        let to_read: usize = if self.size - self.offset < CHUNK_SIZE {
            self.size - self.offset
        } else {
            CHUNK_SIZE
        };
        let address = self.base + self.offset;
        let n = wanted.len();
        let mut hits: Vec<usize> = Vec::new();
        match read {
            Some(bytes) => {
                let text = self.value_type.is_text();
                let step: usize = if text {
                    1
                } else {
                    n
                };
                let (scan_base, scan) = if text && self.carry_tail.len() > 0 {
                    let mut m: Vec<u8> = Vec::new();
                    let mut k: usize = 0;
                    while k < self.carry_tail.len()
                        invariant
                            k <= self.carry_tail@.len(),
                            m@ == self.carry_tail@.take(k as int),
                        decreases self.carry_tail@.len() - k,
                    {
                        m.push(self.carry_tail[k]);
                        assert(self.carry_tail@.take(k + 1) == self.carry_tail@.take(k as int).push(
                            self.carry_tail@[k as int],
                        ));
                        k += 1;
                    }
                    assert(self.carry_tail@.take(self.carry_tail@.len() as int) == self.carry_tail@);
                    let mut j: usize = 0;
                    while j < bytes.len()
                        invariant
                            j <= bytes@.len(),
                            m@ == self.carry_tail@ + bytes@.take(j as int),
                        decreases bytes@.len() - j,
                    {
                        m.push(bytes[j]);
                        assert(bytes@.take(j + 1) == bytes@.take(j as int).push(bytes@[j as int]));
                        j += 1;
                    }
                    assert(bytes@.take(bytes@.len() as int) == bytes@);
                    (address.saturating_sub(self.carry_tail.len()), m)
                } else {
                    (address, bytes)
                };
                hits = find_hits(&scan, wanted, step, scan_base);
                if text && n > 1 {
                    let tail_len = if n - 1 < scan.len() {
                        n - 1
                    } else {
                        scan.len()
                    };
                    let mut tail: Vec<u8> = Vec::new();
                    let start = scan.len() - tail_len;
                    let mut k: usize = start;
                    while k < scan.len()
                        invariant
                            start <= k <= scan@.len(),
                            tail@ == scan@.subrange(start as int, k as int),
                        decreases scan@.len() - k,
                    {
                        tail.push(scan[k]);
                        assert(scan@.subrange(start as int, k + 1) == scan@.subrange(
                            start as int,
                            k as int,
                        ).push(scan@[k as int]));
                        k += 1;
                    }
                    self.carry_tail = tail;
                } else {
                    self.carry_tail = Vec::new();
                }
            },
            None => {
                self.carry_tail = Vec::new();
            },
        }
        self.offset = self.offset + to_read;
        hits
    }
}

// ---------------------------------------------------------------------------
// A whole region, read in full
// ---------------------------------------------------------------------------

/// Where the bytes compared for the chunk at offset `o` begin, for text:
/// `n - 1` bytes before the chunk, or at the region's start.
pub open spec fn window_start(o: int, n: int) -> int {
    if o >= n - 1 {
        o - (n - 1)
    } else {
        0
    }
}

/// The bytes of the chunk at offset `o` of a region holding `mem`.
pub open spec fn chunk_bytes(mem: Seq<u8>, o: int) -> Seq<u8> {
    mem.subrange(o, o + chunk_len(mem.len() as int, o))
}

/// The bytes kept after the first `k` chunks of a region holding `mem`
/// were each read in full.
pub open spec fn full_read_carry(t: EValueType, mem: Seq<u8>, n: nat, k: nat) -> Seq<u8>
    decreases k,
{
    if k == 0 {
        seq![]
    } else {
        let o = (k - 1) * CHUNK_SIZE;
        kept_tail(t, merged(t, full_read_carry(t, mem, n, (k - 1) as nat), chunk_bytes(mem, o)), n)
    }
}

/// The bytes that the scan compares for chunk `k` of a region holding
/// `mem`, every chunk having been read in full.
pub open spec fn full_read_scan(t: EValueType, mem: Seq<u8>, n: nat, k: nat) -> Seq<u8> {
    merged(t, full_read_carry(t, mem, n, k), chunk_bytes(mem, k * CHUNK_SIZE))
}

/// The chunk that holds the last byte of an occurrence at `p`.
pub open spec fn chunk_of(p: int, n: int) -> nat {
    ((p + n - 1) / (CHUNK_SIZE as int)) as nat
}

proof fn lemma_full_read_carry(t: EValueType, mem: Seq<u8>, n: nat, k: nat)
    requires
        t.spec_is_text(),
        n >= 1,
        k * CHUNK_SIZE <= mem.len(),
    ensures
        full_read_carry(t, mem, n, k) == mem.subrange(window_start(k * CHUNK_SIZE, n as int), k * CHUNK_SIZE),
    decreases k,
{
    if k > 0 {
        let c = CHUNK_SIZE as int;
        let o = (k - 1) * CHUNK_SIZE;
        assert((k - 1) * c + c == k * c) by (nonlinear_arith)
            requires
                k >= 1,
        ;
        assert(o + c == k * CHUNK_SIZE);
        lemma_full_read_carry(t, mem, n, (k - 1) as nat);
        let carry = full_read_carry(t, mem, n, (k - 1) as nat);
        let ws = window_start(o, n as int);
        assert(carry == mem.subrange(ws, o));
        let bytes = chunk_bytes(mem, o);
        assert(chunk_len(mem.len() as int, o) == c);
        assert(bytes == mem.subrange(o, o + c));
        let m = merged(t, carry, bytes);
        assert(m == mem.subrange(ws, o + c)) by {
            if carry.len() == 0 {
                assert(ws == o);
            } else {
                assert(carry + bytes == mem.subrange(ws, o + c));
            }
        }
        let ws2 = window_start(o + c, n as int);
        if n > 1 {
            let keep = if n - 1 < m.len() {
                n - 1
            } else {
                m.len() as int
            };
            assert(m.skip(m.len() - keep) == mem.subrange(ws2, o + c)) by {
                if n - 1 < m.len() {
                    assert(ws2 == o + c - (n - 1));
                } else {
                    assert(ws == 0);
                    assert(ws2 == 0);
                }
            }
        } else {
            assert(ws2 == o + c);
            assert(mem.subrange(ws2, o + c) == Seq::<u8>::empty());
        }
        assert(kept_tail(t, m, n) == mem.subrange(ws2, o + c));
        assert(full_read_carry(t, mem, n, k) == kept_tail(t, m, n));
        assert(ws2 == window_start(k * CHUNK_SIZE, n as int));
        assert(mem.subrange(ws2, o + c) == mem.subrange(window_start(k * CHUNK_SIZE, n as int), k * CHUNK_SIZE));
    } else {
        assert(k * CHUNK_SIZE == 0) by (nonlinear_arith)
            requires
                k == 0,
        ;
        assert(window_start(0, n as int) == 0);
        assert(mem.subrange(0, 0) == Seq::<u8>::empty());
    }
}

/// The bytes compared for a chunk are the region's bytes from the window
/// start to the end of the chunk.
proof fn lemma_full_read_scan(t: EValueType, mem: Seq<u8>, n: nat, k: nat)
    requires
        t.spec_is_text(),
        n >= 1,
        k * CHUNK_SIZE < mem.len(),
    ensures
        full_read_scan(t, mem, n, k) == mem.subrange(
            window_start(k * CHUNK_SIZE, n as int),
            k * CHUNK_SIZE + chunk_len(mem.len() as int, k * CHUNK_SIZE),
        ),
        full_read_carry(t, mem, n, k).len() == k * CHUNK_SIZE - window_start(k * CHUNK_SIZE, n as int),
{
    lemma_full_read_carry(t, mem, n, k);
}

/// Text scan coverage: where every chunk of a region is read in full, an
/// occurrence of the text at offset `p` of the region is found in exactly
/// one chunk (the one holding its last byte), at the address of `p`; and
/// whatever a chunk finds is an occurrence in the region.
pub proof fn lemma_text_scan_finds_each_occurrence_once(
    t: EValueType,
    mem: Seq<u8>,
    wanted: Seq<u8>,
    base: int,
    p: int,
)
    requires
        t.spec_is_text(),
        wanted.len() >= 1,
        base >= 0,
        is_hit(mem, wanted, 1, p),
    ensures
        ({
            let n = wanted.len();
            let k = chunk_of(p, n as int);
            &&& k * CHUNK_SIZE < mem.len()
            &&& is_hit(full_read_scan(t, mem, n, k), wanted, 1, p - window_start(k * CHUNK_SIZE, n as int))
            &&& merged_base(t, full_read_carry(t, mem, n, k), base + k * CHUNK_SIZE) + (p
                - window_start(k * CHUNK_SIZE, n as int)) == base + p
        }),
        forall|j: nat|
            j * CHUNK_SIZE < mem.len() && j != chunk_of(p, wanted.len() as int) ==> !is_hit(
                #[trigger] full_read_scan(t, mem, wanted.len(), j),
                wanted,
                1,
                p - window_start(j * CHUNK_SIZE, wanted.len() as int),
            ),
{
    let n = wanted.len();
    let c = CHUNK_SIZE as int;
    let k = chunk_of(p, n as int);
    let o = k * c;
    assert(o <= p + n - 1 < o + c) by (nonlinear_arith)
        requires
            k == (p + n - 1) / c,
            c > 0,
            p + n - 1 >= 0,
            o == k * c,
    ;
    lemma_full_read_scan(t, mem, n, k);
    let scan = full_read_scan(t, mem, n, k);
    let ws = window_start(o, n as int);
    assert(scan.subrange(p - ws, p - ws + n) == mem.subrange(p, p + n));
    assert forall|j: nat|
        j * CHUNK_SIZE < mem.len() && j != chunk_of(p, n as int) implies !is_hit(
        #[trigger] full_read_scan(t, mem, n, j),
        wanted,
        1,
        p - window_start(j * CHUNK_SIZE, n as int),
    ) by {
        lemma_full_read_scan(t, mem, n, j);
        let oj = j * c;
        let wj = window_start(oj, n as int);
        let lenj = chunk_len(mem.len() as int, oj);
        if is_hit(full_read_scan(t, mem, n, j), wanted, 1, p - wj) {
            assert(wj <= p);
            assert(p + n <= oj + lenj);
            if j < k {
                assert(oj + c <= o) by (nonlinear_arith)
                    requires
                        j < k,
                        oj == j * c,
                        o == k * c,
                        c > 0,
                ;
            } else {
                assert(o + c <= oj) by (nonlinear_arith)
                    requires
                        j > k,
                        oj == j * c,
                        o == k * c,
                        c > 0,
                ;
            }
        }
    }
}

/// Text scan soundness: every offset that the scan of a chunk reports is
/// an occurrence of the text in the region, at the address reported.
pub proof fn lemma_text_scan_reports_occurrences(
    t: EValueType,
    mem: Seq<u8>,
    wanted: Seq<u8>,
    base: int,
    k: nat,
    i: int,
)
    requires
        t.spec_is_text(),
        wanted.len() >= 1,
        base >= 0,
        k * CHUNK_SIZE < mem.len(),
        is_hit(full_read_scan(t, mem, wanted.len(), k), wanted, 1, i),
    ensures
        is_hit(mem, wanted, 1, window_start(k * CHUNK_SIZE, wanted.len() as int) + i),
        merged_base(t, full_read_carry(t, mem, wanted.len(), k), base + k * CHUNK_SIZE) + i
            == base + window_start(k * CHUNK_SIZE, wanted.len() as int) + i,
{
    let n = wanted.len();
    lemma_full_read_scan(t, mem, n, k);
    let ws = window_start(k * CHUNK_SIZE, n as int);
    let scan = full_read_scan(t, mem, n, k);
    assert(scan.subrange(i, i + n) == mem.subrange(ws + i, ws + i + n));
}

/// For a number type nothing is kept between chunks: the bytes compared
/// for a chunk are the chunk's own bytes.
proof fn lemma_number_scan_is_chunk(t: EValueType, mem: Seq<u8>, n: nat, k: nat)
    requires
        !t.spec_is_text(),
    ensures
        full_read_carry(t, mem, n, k) == Seq::<u8>::empty(),
        full_read_scan(t, mem, n, k) == chunk_bytes(mem, k * CHUNK_SIZE),
{
}

/// Number scan exactness: where every chunk of a region is read in full, a
/// value of a number type that occurs at an offset `p` of the region that
/// is a multiple of its size is found by the chunk holding `p`, at the
/// address of `p`, and by no other chunk; and whatever a chunk finds is
/// such an occurrence, at the address reported.
pub proof fn lemma_number_scan_finds_aligned_occurrences(
    t: EValueType,
    mem: Seq<u8>,
    wanted: Seq<u8>,
    base: int,
    p: int,
)
    requires
        crate::values::watched_size(t) matches Some(size) && wanted.len() == size,
    ensures
        ({
            let n = wanted.len();
            let k = (p / (CHUNK_SIZE as int)) as nat;
            is_hit(mem, wanted, n, p) ==> {
                &&& k * CHUNK_SIZE < mem.len()
                &&& is_hit(full_read_scan(t, mem, n, k), wanted, n, p - k * CHUNK_SIZE)
                &&& merged_base(t, full_read_carry(t, mem, n, k), base + k * CHUNK_SIZE) + (p - k
                    * CHUNK_SIZE) == base + p
            }
        }),
        forall|j: nat|
            j * CHUNK_SIZE < mem.len() && j != (p / (CHUNK_SIZE as int)) as nat && is_hit(
                mem,
                wanted,
                wanted.len(),
                p,
            ) ==> !is_hit(
                #[trigger] full_read_scan(t, mem, wanted.len(), j),
                wanted,
                wanted.len(),
                p - j * CHUNK_SIZE,
            ),
        forall|j: nat, i: int|
            j * CHUNK_SIZE < mem.len() && #[trigger] is_hit(
                full_read_scan(t, mem, wanted.len(), j),
                wanted,
                wanted.len(),
                i,
            ) ==> is_hit(mem, wanted, wanted.len(), j * CHUNK_SIZE + i) && merged_base(
                t,
                full_read_carry(t, mem, wanted.len(), j),
                base + j * CHUNK_SIZE,
            ) + i == base + j * CHUNK_SIZE + i,
{
    let n = wanted.len();
    let c = CHUNK_SIZE as int;
    assert(n == 4 || n == 8);
    if is_hit(mem, wanted, n, p) {
        let k = (p / c) as nat;
        let o = k * c;
        let r = p - o;
        assert(0 <= r < c && r % (n as int) == 0 && r + n <= c) by (nonlinear_arith)
            requires
                p >= 0,
                p % (n as int) == 0,
                n == 4 || n == 8,
                c == 65536,
                k == p / c,
                o == k * c,
                r == p - o,
        ;
        lemma_number_scan_is_chunk(t, mem, n, k);
        let chunk = full_read_scan(t, mem, n, k);
        assert(chunk.subrange(r, r + n) == mem.subrange(p, p + n));
        assert forall|j: nat|
            j * CHUNK_SIZE < mem.len() && j != k implies !is_hit(
            #[trigger] full_read_scan(t, mem, n, j),
            wanted,
            n,
            p - j * CHUNK_SIZE,
        ) by {
            lemma_number_scan_is_chunk(t, mem, n, j);
            let oj = j * c;
            if is_hit(full_read_scan(t, mem, n, j), wanted, n, p - oj) {
                assert(oj <= p && p + n <= oj + c);
                if j < k {
                    assert(oj + c <= o) by (nonlinear_arith)
                        requires
                            j < k,
                            oj == j * c,
                            o == k * c,
                            c > 0,
                    ;
                } else {
                    assert(o + c <= oj) by (nonlinear_arith)
                        requires
                            j > k,
                            oj == j * c,
                            o == k * c,
                            c > 0,
                    ;
                }
            }
        }
    }
    assert forall|j: nat, i: int|
        j * CHUNK_SIZE < mem.len() && #[trigger] is_hit(
            full_read_scan(t, mem, n, j),
            wanted,
            n,
            i,
        ) implies is_hit(mem, wanted, n, j * CHUNK_SIZE + i) && merged_base(
        t,
        full_read_carry(t, mem, n, j),
        base + j * CHUNK_SIZE,
    ) + i == base + j * CHUNK_SIZE + i by {
        lemma_number_scan_is_chunk(t, mem, n, j);
        let oj = j * c;
        let chunk = full_read_scan(t, mem, n, j);
        assert(chunk.subrange(i, i + n) == mem.subrange(oj + i, oj + i + n));
        assert((oj + i) % (n as int) == 0) by (nonlinear_arith)
            requires
                i % (n as int) == 0,
                n == 4 || n == 8,
                c == 65536,
                oj == j * c,
        ;
    }
}

// ---------------------------------------------------------------------------
// The scan worker
// ---------------------------------------------------------------------------

/// The steps before scanning where a full scan can fail.
#[derive(Debug, Clone, Copy, PartialEq, Eq, Structural)]
pub enum ScanFailure {
    ParseInput,
    PrepareValue,
    OpenProcess,
    EnumerateRegions,
}

/// The message of a failure, followed by the error's own text.
pub open spec fn failure_text(stage: ScanFailure, detail: Seq<char>) -> Seq<char> {
    match stage {
        ScanFailure::ParseInput => "Failed to parse input value: "@ + detail,
        ScanFailure::PrepareValue => "Failed to prepare scan value: "@ + detail,
        ScanFailure::OpenProcess => "OpenProcess failed: "@ + detail,
        ScanFailure::EnumerateRegions => "enumerate_regions failed: "@ + detail,
    }
}

/// The error that a full scan reports where it fails before scanning.
pub fn failure_message(stage: ScanFailure, detail: &str) -> (m: ScanMessage)
    ensures
        m matches ScanMessage::Error(s) && s@ == failure_text(stage, detail@),
{
    let mut s = match stage {
        ScanFailure::ParseInput => text::string_of("Failed to parse input value: "),
        ScanFailure::PrepareValue => text::string_of("Failed to prepare scan value: "),
        ScanFailure::OpenProcess => text::string_of("OpenProcess failed: "),
        ScanFailure::EnumerateRegions => text::string_of("enumerate_regions failed: "),
    };
    text::push_str(&mut s, detail);
    ScanMessage::Error(s)
}

/// The address of a `Found` message.
pub open spec fn found_address(m: ScanMessage) -> usize {
    match m {
        ScanMessage::Found(row) => row.address,
        _ => 0,
    }
}

/// The addresses of a run of `Found` messages.
pub open spec fn found_addresses(msgs: Seq<ScanMessage>) -> Seq<usize> {
    msgs.map_values(|m: ScanMessage| found_address(m))
}

/// One `Found` message per hit, in the order of the hits.
fn found_rows(hits: &Vec<usize>, t: EValueType, display: &String) -> (msgs: Vec<ScanMessage>)
    ensures
        msgs@.len() == hits@.len(),
        forall|k: int|
            0 <= k < hits@.len() ==> (#[trigger] msgs@[k] matches ScanMessage::Found(row)
                && is_found_row(row, hits@[k], t, display@)),
{
    let mut msgs: Vec<ScanMessage> = Vec::new();
    let mut k: usize = 0;
    while k < hits.len()
        invariant
            k <= hits@.len(),
            msgs@.len() == k,
            forall|j: int|
                0 <= j < k ==> (#[trigger] msgs@[j] matches ScanMessage::Found(row)
                    && is_found_row(row, hits@[j], t, display@)),
        decreases hits@.len() - k,
    {
        let row = ResultRow::found(hits[k], t, display.clone());
        msgs.push(ScanMessage::Found(row));
        k += 1;
    }
    msgs
}

/// Where the messages of a scan stand: before the first, while it runs,
/// and after the last.
#[derive(Debug, Clone, Copy, PartialEq, Eq, Structural)]
pub enum ScanPhase {
    Opening,
    Running,
    Closed,
}

/// The phase, entered-region count and found count after `m`, from `st`;
/// `None` where `m` cannot come there. A scan opens with `Started` (or
/// fails at once with `Error`); while it runs it sends `Found` rows and,
/// after each region it entered, `Progress` with the regions entered and
/// the rows found so far; it ends with `Done` and the rows found.
pub open spec fn log_step(st: (ScanPhase, nat, nat), m: ScanMessage) -> Option<(ScanPhase, nat, nat)> {
    let (phase, regions, found) = st;
    match phase {
        ScanPhase::Opening => match m {
            ScanMessage::Started { .. } => Some((ScanPhase::Running, 0, 0)),
            ScanMessage::Error(_) => Some((ScanPhase::Closed, 0, 0)),
            _ => None,
        },
        ScanPhase::Running => match m {
            ScanMessage::Found(_) => Some((ScanPhase::Running, regions, found + 1)),
            ScanMessage::Progress { scanned_regions, found: f } => if scanned_regions == regions + 1
                && f == found {
                Some((ScanPhase::Running, regions + 1, found))
            } else {
                None
            },
            ScanMessage::Done { found: f } => if f == found {
                Some((ScanPhase::Closed, regions, found))
            } else {
                None
            },
            _ => None,
        },
        ScanPhase::Closed => None,
    }
}

/// Where the messages `msgs` of a scan leave it, `None` where they are out
/// of order.
pub open spec fn log_state(msgs: Seq<ScanMessage>) -> Option<(ScanPhase, nat, nat)>
    decreases msgs.len(),
{
    if msgs.len() == 0 {
        Some((ScanPhase::Opening, 0, 0))
    } else {
        match log_state(msgs.drop_last()) {
            Some(st) => log_step(st, msgs.last()),
            None => None,
        }
    }
}

/// Adding `Found` rows to a running scan's messages adds to its found count.
proof fn lemma_log_found_rows(sent: Seq<ScanMessage>, rows: Seq<ScanMessage>, regions: nat, found: nat)
    requires
        log_state(sent) == Some((ScanPhase::Running, regions, found)),
        forall|k: int| 0 <= k < rows.len() ==> #[trigger] rows[k] is Found,
    ensures
        log_state(sent + rows) == Some((ScanPhase::Running, regions, found + rows.len())),
    decreases rows.len(),
{
    if rows.len() == 0 {
        assert(sent + rows == sent);
    } else {
        assert((sent + rows).drop_last() == sent + rows.drop_last());
        assert(rows.drop_last().len() < rows.len());
        assert forall|k: int| 0 <= k < rows.drop_last().len() implies #[trigger] rows.drop_last()[k] is Found by {
            assert(rows.drop_last()[k] == rows[k]);
        }
        lemma_log_found_rows(sent, rows.drop_last(), regions, found);
        assert((sent + rows).last() == rows[rows.len() - 1]);
    }
}

/// Message order of a scan: messages that are in order start with
/// `Started`, or are one `Error`; no `Done` comes before the last; and a
/// scan that is closed ends with `Done` or is that one `Error`.
pub proof fn lemma_scan_log_order(msgs: Seq<ScanMessage>)
    requires
        log_state(msgs) is Some,
    ensures
        msgs.len() > 0 ==> msgs[0] is Started || (msgs[0] is Error && msgs.len() == 1),
        forall|k: int| 0 <= k < msgs.len() - 1 ==> !(#[trigger] msgs[k] is Done),
        forall|k: int| 0 < k < msgs.len() ==> !(#[trigger] msgs[k] is Error) && !(msgs[k] is Started),
        log_state(msgs) matches Some((ScanPhase::Closed, _, _)) ==> msgs.last() is Done || (msgs.last() is Error
            && msgs.len() == 1),
        log_state(msgs) matches Some((ScanPhase::Opening, _, _)) ==> msgs.len() == 0,
    decreases msgs.len(),
{
    if msgs.len() > 0 {
        let prev = msgs.drop_last();
        lemma_scan_log_order(prev);
        assert forall|k: int| 0 <= k < prev.len() implies prev[k] == msgs[k] by {}
        if prev.len() > 0 {
            assert(prev[0] == msgs[0]);
        }
    }
}

/// A full scan in progress: the value looked for, and the counts it reports.
pub struct ScanWorker {
    wanted: Vec<u8>,
    display: String,
    value_type: EValueType,
    scanned_regions: usize,
    found: usize,
    region: Option<RegionScan>,
    phase: ScanPhase,
    sent: Ghost<Seq<ScanMessage>>,
}

impl ScanWorker {
    /// The bytes looked for.
    pub closed spec fn spec_wanted(&self) -> Seq<u8> {
        self.wanted@
    }

    /// The text shown for each row found.
    pub closed spec fn spec_display(&self) -> Seq<char> {
        self.display@
    }

    /// The type of the value looked for.
    pub closed spec fn spec_value_type(&self) -> EValueType {
        self.value_type
    }

    /// How many regions the scan has entered.
    pub closed spec fn spec_scanned_regions(&self) -> int {
        self.scanned_regions as int
    }

    /// How many addresses the scan has found.
    pub closed spec fn spec_found(&self) -> int {
        self.found as int
    }

    /// The scan of the region being read, if any.
    pub closed spec fn spec_region(&self) -> Option<RegionScan> {
        self.region
    }

    /// Where the scan's messages stand.
    pub closed spec fn spec_phase(&self) -> ScanPhase {
        self.phase
    }

    /// The messages the worker has handed out, in order.
    pub closed spec fn spec_sent(&self) -> Seq<ScanMessage> {
        self.sent@
    }

    /// The worker's own invariant: the messages handed out are in order,
    /// and count the regions left and the rows found.
    pub closed spec fn wf(&self) -> bool {
        &&& self.wanted@.len() >= 1
        &&& self.region matches Some(r) ==> r.wf() && r.spec_value_type() == self.value_type
        &&& self.region is Some ==> self.phase is Running && self.scanned_regions >= 1
        &&& log_state(self.sent@) == Some(
            (
                self.phase,
                (self.scanned_regions - (if self.region is Some {
                    1int
                } else {
                    0int
                })) as nat,
                self.found as nat,
            ),
        )
        &&& self.phase is Opening ==> self.scanned_regions == 0 && self.found == 0
    }

    /// A scan for the bytes `wanted`; the error message where there is
    /// nothing to look for. The rows it finds show no text until
    /// `set_display` gives one.
    pub fn new(value_type: EValueType, wanted: Vec<u8>) -> (r: Result<ScanWorker, ScanMessage>)
        ensures
            match r {
                Ok(w) => {
                    &&& wanted@.len() > 0
                    &&& w.wf()
                    &&& w.spec_wanted() == wanted@
                    &&& w.spec_display() == Seq::<char>::empty()
                    &&& w.spec_value_type() == value_type
                    &&& w.spec_scanned_regions() == 0
                    &&& w.spec_found() == 0
                    &&& w.spec_region() is None
                    &&& w.spec_phase() == ScanPhase::Opening
                    &&& w.spec_sent() == Seq::<ScanMessage>::empty()
                },
                Err(m) => wanted@.len() == 0 && (m matches ScanMessage::Error(s) && s@
                    == "Input value cannot be empty"@),
            },
    {
        if wanted.len() == 0 {
            return Err(ScanMessage::Error(text::string_of("Input value cannot be empty")));
        }
        Ok(
            ScanWorker {
                wanted,
                display: String::new(),
                value_type,
                scanned_regions: 0,
                found: 0,
                region: None,
                phase: ScanPhase::Opening,
                sent: Ghost(Seq::empty()),
            },
        )
    }

    /// The bytes looked for.
    pub fn wanted(&self) -> (r: &Vec<u8>)
        ensures
            r@ == self.spec_wanted(),
    {
        &self.wanted
    }

    /// Sets the text that the rows found show.
    pub fn set_display(&mut self, display: String)
        ensures
            final(self).spec_display() == display@,
            final(self).spec_wanted() == old(self).spec_wanted(),
            final(self).spec_value_type() == old(self).spec_value_type(),
            final(self).spec_scanned_regions() == old(self).spec_scanned_regions(),
            final(self).spec_found() == old(self).spec_found(),
            final(self).spec_region() == old(self).spec_region(),
            final(self).spec_phase() == old(self).spec_phase(),
            final(self).spec_sent() == old(self).spec_sent(),
            old(self).wf() ==> final(self).wf(),
    {
        self.display = display;
    }

    /// How many regions the scan has entered.
    pub fn scanned_regions(&self) -> (r: usize)
        ensures
            r == self.spec_scanned_regions(),
    {
        self.scanned_regions
    }

    /// Whether the count of found addresses can take every address of the
    /// next chunk: `feed` asks for that.
    pub fn next_feed_fits(&self) -> (r: bool)
        requires
            self.wf(),
        ensures
            self.spec_region() matches Some(reg) ==> r == (self.spec_found() + chunk_len(
                reg.spec_size(),
                reg.spec_offset(),
            ) + reg.spec_carry().len() <= usize::MAX),
    {
        match &self.region {
            Some(reg) => reg.fits_after(self.found),
            None => false,
        }
    }

    /// The message that starts the scan of `total_regions` regions; the
    /// first message of the scan.
    pub fn started(&mut self, total_regions: usize) -> (m: ScanMessage)
        requires
            old(self).wf(),
            old(self).spec_phase() is Opening,
        ensures
            final(self).wf(),
            m matches ScanMessage::Started { total_regions: t } && t == total_regions,
            final(self).spec_phase() is Running,
            final(self).spec_sent() == old(self).spec_sent().push(m),
            final(self).spec_wanted() == old(self).spec_wanted(),
            final(self).spec_display() == old(self).spec_display(),
            final(self).spec_value_type() == old(self).spec_value_type(),
            final(self).spec_scanned_regions() == old(self).spec_scanned_regions(),
            final(self).spec_found() == old(self).spec_found(),
            final(self).spec_region() == old(self).spec_region(),
    {
        let m = ScanMessage::Started { total_regions };
        self.phase = ScanPhase::Running;
        proof {
            self.sent@ = self.sent@.push(m);
            assert(self.sent@.drop_last() =~= old(self).sent@);
        }
        m
    }

    /// Enters the next region; `false` where the scan skips it.
    pub fn enter_region(&mut self, region: &MemoryRegion) -> (entered: bool)
        requires
            old(self).wf(),
            old(self).spec_phase() is Running,
            old(self).spec_region() is None,
            in_address_space(*region),
            old(self).spec_scanned_regions() < usize::MAX,
        ensures
            final(self).wf(),
            final(self).spec_phase() == old(self).spec_phase(),
            final(self).spec_sent() == old(self).spec_sent(),
            entered == scannable(*region),
            final(self).spec_wanted() == old(self).spec_wanted(),
            final(self).spec_display() == old(self).spec_display(),
            final(self).spec_value_type() == old(self).spec_value_type(),
            final(self).spec_found() == old(self).spec_found(),
            entered ==> {
                &&& final(self).spec_scanned_regions() == old(self).spec_scanned_regions() + 1
                &&& final(self).spec_region() matches Some(r) && {
                    &&& r.spec_base() == region.base_address
                    &&& r.spec_size() == region.region_size
                    &&& r.spec_offset() == 0
                    &&& r.spec_carry() == Seq::<u8>::empty()
                }
            },
            !entered ==> final(self).spec_scanned_regions() == old(self).spec_scanned_regions()
                && final(self).spec_region() == old(self).spec_region(),
    {
        if !is_scannable_region(region) {
            return false;
        }
        self.scanned_regions = self.scanned_regions + 1;
        self.region = Some(RegionScan::new(region, self.value_type));
        true
    }

    /// The address and length of the next chunk of the current region to
    /// read; `None` when there is no region or it has been read through.
    pub fn next_read(&self) -> (r: Option<(usize, usize)>)
        requires
            self.wf(),
        ensures
            match self.spec_region() {
                Some(reg) => match r {
                    Some((address, len)) => {
                        &&& reg.spec_offset() < reg.spec_size()
                        &&& address == reg.spec_base() + reg.spec_offset()
                        &&& len == chunk_len(reg.spec_size(), reg.spec_offset())
                    },
                    None => reg.spec_offset() >= reg.spec_size(),
                },
                None => r is None,
            },
    {
        match &self.region {
            Some(reg) => reg.next_chunk(),
            None => None,
        }
    }

    /// Takes the outcome of reading the chunk that `next_read` named and
    /// returns one `Found` row per address where the value occurs, in
    /// increasing address order.
    pub fn feed(&mut self, read: Option<Vec<u8>>) -> (msgs: Vec<ScanMessage>)
        requires
            old(self).wf(),
            old(self).spec_region() matches Some(reg) && reg.spec_offset() < reg.spec_size() && (
            read matches Some(b) ==> b@.len() <= chunk_len(reg.spec_size(), reg.spec_offset())),
            old(self).spec_found() + chunk_len(
                old(self).spec_region()->0.spec_size(),
                old(self).spec_region()->0.spec_offset(),
            ) + old(self).spec_region()->0.spec_carry().len() <= usize::MAX,
        ensures
            final(self).wf(),
            final(self).spec_wanted() == old(self).spec_wanted(),
            final(self).spec_display() == old(self).spec_display(),
            final(self).spec_value_type() == old(self).spec_value_type(),
            final(self).spec_scanned_regions() == old(self).spec_scanned_regions(),
            final(self).spec_found() == old(self).spec_found() + msgs@.len(),
            final(self).spec_phase() == old(self).spec_phase(),
            final(self).spec_sent() == old(self).spec_sent() + msgs@,
            final(self).spec_region() matches Some(reg) && {
                let old_reg = old(self).spec_region()->0;
                let t = old(self).spec_value_type();
                &&& reg.spec_base() == old_reg.spec_base()
                &&& reg.spec_size() == old_reg.spec_size()
                &&& reg.spec_offset() == old_reg.spec_offset() + chunk_len(
                    old_reg.spec_size(),
                    old_reg.spec_offset(),
                )
                &&& match read {
                    Some(b) => {
                        let scan = merged(t, old_reg.spec_carry(), b@);
                        let base = merged_base(
                            t,
                            old_reg.spec_carry(),
                            old_reg.spec_base() + old_reg.spec_offset(),
                        );
                        &&& reg.spec_carry() == kept_tail(t, scan, old(self).spec_wanted().len())
                        &&& lists_hits(
                            found_addresses(msgs@),
                            scan,
                            old(self).spec_wanted(),
                            scan_step(t, old(self).spec_wanted().len()),
                            base,
                        )
                        &&& forall|k: int|
                            0 <= k < msgs@.len() ==> (#[trigger] msgs@[k] matches ScanMessage::Found(
                                row,
                            ) && is_found_row(row, row.address, t, old(self).spec_display()))
                    },
                    None => msgs@.len() == 0 && reg.spec_carry() == Seq::<u8>::empty(),
                }
            },
    {
        let mut reg = self.region.take().unwrap();
        let ghost old_reg = reg;
        let ghost read_copy = read;
        let hits = reg.feed(self.wanted.as_slice(), read);
        proof {
            lemma_hits_bounded(hits@, old_reg, read_copy, self.wanted@, self.value_type);
        }
        let msgs = found_rows(&hits, self.value_type, &self.display);
        assert(found_addresses(msgs@) =~= hits@);
        proof {
            lemma_log_found_rows(
                self.sent@,
                msgs@,
                (self.scanned_regions - 1) as nat,
                self.found as nat,
            );
            self.sent@ = self.sent@ + msgs@;
        }
        self.found = self.found + hits.len();
        self.region = Some(reg);
        msgs
    }

    /// Leaves the region entered last; the message that reports the
    /// progress after it.
    pub fn region_done(&mut self) -> (m: ScanMessage)
        requires
            old(self).wf(),
            old(self).spec_region() is Some,
        ensures
            final(self).wf(),
            m matches ScanMessage::Progress { scanned_regions, found }
                && scanned_regions == old(self).spec_scanned_regions() && found == old(self).spec_found(),
            final(self).spec_region() is None,
            final(self).spec_phase() == old(self).spec_phase(),
            final(self).spec_sent() == old(self).spec_sent().push(m),
            final(self).spec_wanted() == old(self).spec_wanted(),
            final(self).spec_display() == old(self).spec_display(),
            final(self).spec_value_type() == old(self).spec_value_type(),
            final(self).spec_scanned_regions() == old(self).spec_scanned_regions(),
            final(self).spec_found() == old(self).spec_found(),
    {
        let m = ScanMessage::Progress { scanned_regions: self.scanned_regions, found: self.found };
        self.region = None;
        proof {
            self.sent@ = self.sent@.push(m);
            assert(self.sent@.drop_last() =~= old(self).sent@);
        }
        m
    }

    /// Ends the scan; its last message.
    pub fn done(&mut self) -> (m: ScanMessage)
        requires
            old(self).wf(),
            old(self).spec_phase() is Running,
            old(self).spec_region() is None,
        ensures
            final(self).wf(),
            m matches ScanMessage::Done { found } && found == old(self).spec_found(),
            final(self).spec_phase() is Closed,
            final(self).spec_sent() == old(self).spec_sent().push(m),
            final(self).spec_scanned_regions() == old(self).spec_scanned_regions(),
            final(self).spec_found() == old(self).spec_found(),
            final(self).spec_region() is None,
    {
        let m = ScanMessage::Done { found: self.found };
        self.phase = ScanPhase::Closed;
        proof {
            self.sent@ = self.sent@.push(m);
            assert(self.sent@.drop_last() =~= old(self).sent@);
        }
        m
    }
}

proof fn lemma_hits_bounded(
    hits: Seq<usize>,
    reg: RegionScan,
    read: Option<Vec<u8>>,
    wanted: Seq<u8>,
    t: EValueType,
)
    requires
        wanted.len() >= 1,
        match read {
            Some(b) => lists_hits(
                hits,
                merged(t, reg.spec_carry(), b@),
                wanted,
                scan_step(t, wanted.len()),
                merged_base(t, reg.spec_carry(), reg.spec_base() + reg.spec_offset()),
            ),
            None => hits.len() == 0,
        },
        read matches Some(b) ==> b@.len() <= chunk_len(reg.spec_size(), reg.spec_offset()),
        reg.spec_offset() <= reg.spec_size(),
    ensures
        hits.len() <= chunk_len(reg.spec_size(), reg.spec_offset()) + reg.spec_carry().len(),
{
    if let Some(b) = read {
        let scan = merged(t, reg.spec_carry(), b@);
        assert(scan.len() <= b@.len() + reg.spec_carry().len());
        let base = merged_base(t, reg.spec_carry(), reg.spec_base() + reg.spec_offset());
        lemma_hits_fit(hits, scan, wanted, scan_step(t, wanted.len()), base);
    }
}

/// Strictly increasing numbers in `lo..hi` number at most `hi - lo`.
proof fn lemma_increasing_in_interval(xs: Seq<usize>, lo: int, hi: int)
    requires
        forall|k: int| 0 <= k < xs.len() ==> lo <= #[trigger] xs[k] < hi,
        forall|k: int, l: int| 0 <= k < l < xs.len() ==> xs[k] < xs[l],
    ensures
        xs.len() <= if hi >= lo { hi - lo } else { 0 },
    decreases xs.len(),
{
    if xs.len() > 0 {
        let last = xs.last();
        let rest = xs.drop_last();
        assert forall|k: int| 0 <= k < rest.len() implies lo <= #[trigger] rest[k] < last by {
            assert(rest[k] == xs[k]);
        }
        lemma_increasing_in_interval(rest, lo, last as int);
    }
}

/// Hits lie in `base..base + scan.len()`, so there are at most as many as bytes.
proof fn lemma_hits_fit(hits: Seq<usize>, scan: Seq<u8>, wanted: Seq<u8>, step: nat, base: int)
    requires
        wanted.len() >= 1,
        lists_hits(hits, scan, wanted, step, base),
    ensures
        hits.len() <= scan.len(),
{
    assert forall|k: int| 0 <= k < hits.len() implies base <= #[trigger] hits[k] < base + scan.len() by {
        assert(is_hit(scan, wanted, step, hits[k] - base));
    }
    lemma_increasing_in_interval(hits, base, base + scan.len());
}

} // verus!
