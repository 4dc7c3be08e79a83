//! The decisions of the process management system calls: the time value
//! handed to user space, and whether a memory mapping or unmapping request
//! is accepted.
//!
//! The page table is read by the caller: for a request over addresses
//! `start .. start + len`, it looks up every virtual page number of
//! [`vpn_range`] and passes, in order, `None` for a page with no entry and
//! `Some(valid)` for a page whose entry has the given valid bit.
use vstd::prelude::*;

verus! {

/// The size of a page, in bytes.
pub const PAGE_SIZE: usize = 0x1000;

/// Microseconds in a second.
pub const MICROS_PER_SEC: usize = 1_000_000;

/// A time in seconds and microseconds.
#[derive(Debug)]
pub struct TimeVal {
    pub sec: usize,
    pub usec: usize,
}

impl TimeVal {
    /// The time value of `us` microseconds.
    pub fn from_us(us: usize) -> (t: TimeVal)
        ensures
            t.sec == us / MICROS_PER_SEC,
            t.usec == us % MICROS_PER_SEC,
            t.sec * MICROS_PER_SEC + t.usec == us,
            t.usec < MICROS_PER_SEC,
    {
        proof {
            vstd::arithmetic::div_mod::lemma_fundamental_div_mod(us as int, MICROS_PER_SEC as int);
        }
        TimeVal { sec: us / MICROS_PER_SEC, usec: us % MICROS_PER_SEC }
    }
}

/// The first page at or after address `addr`.
pub open spec fn page_ceil(addr: int) -> int {
    (addr + PAGE_SIZE - 1) / (PAGE_SIZE as int)
}

/// The virtual page numbers covered by `start .. start + len`: from the page
/// holding `start` up to, not including, the first page at or after the end.
pub fn vpn_range(start: usize, len: usize) -> (r: (usize, usize))
    requires
        start + len <= usize::MAX,
    ensures
        r.0 == start / PAGE_SIZE,
        r.1 == page_ceil(start + len),
        r.0 <= r.1,
{
    let end = start + len;
    let end_vpn = if end == 0 {
        0
    } else {
        (end - 1) / PAGE_SIZE + 1
    };
    proof {
        if end > 0 {
            assert((end - 1 + PAGE_SIZE) / (PAGE_SIZE as int) == (end - 1) / (PAGE_SIZE as int) + 1);
        }
    }
    (start / PAGE_SIZE, end_vpn)
}

/// The permission bits asked for by `port` are valid: some of read (1),
/// write (2) and execute (4), and nothing else.
pub open spec fn port_valid(port: usize) -> bool {
    1 <= port <= 7
}

/// Whether `addr` is page aligned.
pub fn page_aligned(addr: usize) -> (ok: bool)
    ensures
        ok == (addr % PAGE_SIZE == 0),
{
    addr % PAGE_SIZE == 0
}

/// Whether a mapping request passes the checks made before the page table
/// is read: `start` page aligned and `port` valid.
pub fn mmap_args_valid(start: usize, port: usize) -> (ok: bool)
    ensures
        ok == (start % PAGE_SIZE == 0 && port_valid(port)),
        ok == (start % PAGE_SIZE == 0 && 1 <= port <= 7),
{
    page_aligned(start) && check_port(port)
}

fn check_port(port: usize) -> (ok: bool)
    ensures
        ok == port_valid(port),
        ok == (1 <= port <= 7),
{
    proof {
        assert((port & !7usize) == 0usize <==> port < 8) by (bit_vector);
        assert(port < 8 ==> ((port & 7usize) == 0usize <==> port == 0)) by (bit_vector);
    }
    !(port & !0x7 != 0 || port & 0x7 == 0)
}

/// A mapping request is accepted: `start` is page aligned, `port` is valid
/// and no page of the range is mapped already.
pub open spec fn mmap_accepted(start: usize, port: usize, entries: Seq<Option<bool>>) -> bool {
    &&& start % PAGE_SIZE == 0
    &&& port_valid(port)
    &&& forall|i: int| 0 <= i < entries.len() ==> #[trigger] entries[i] != Some(true)
}

/// An unmapping request is accepted: `start` is page aligned and every page
/// of the range has a valid entry.
pub open spec fn munmap_accepted(start: usize, entries: Seq<Option<bool>>) -> bool {
    &&& start % PAGE_SIZE == 0
    &&& forall|i: int| 0 <= i < entries.len() ==> #[trigger] entries[i] == Some(true)
}

/// Whether a request to map `len` bytes at `start` with permission `port`
/// is accepted (0) or refused (-1). `entries` are the page table entries of
/// the pages of [`vpn_range`]; they are read only once the address and the
/// permission are found valid.
pub fn sys_mmap(start: usize, len: usize, port: usize, entries: &Vec<Option<bool>>) -> (r: isize)
    requires
        start % PAGE_SIZE == 0 && port_valid(port) ==> start + len <= usize::MAX && entries.len()
            == page_ceil(start + len) - start / PAGE_SIZE,
    ensures
        r == (if mmap_accepted(start, port, entries@) {
            0isize
        } else {
            -1isize
        }),
        forall|i: int| 0 <= i < entries@.len() && #[trigger] entries@[i] == Some(true) ==> r == -1,
        start % PAGE_SIZE != 0 ==> r == -1,
        !(1 <= port <= 7) ==> r == -1,
        r == 0 <==> (start % PAGE_SIZE == 0 && 1 <= port <= 7 && forall|i: int|
            0 <= i < entries@.len() ==> #[trigger] entries@[i] != Some(true)),
{
    if !page_aligned(start) {
        return -1;
    }
    if !check_port(port) {
        return -1;
    }
    let n = entries.len();
    let mut i: usize = 0;
    while i < n
        invariant
            n == entries.len(),
            0 <= i <= n,
            forall|k: int| 0 <= k < i ==> #[trigger] entries@[k] != Some(true),
        decreases n - i,
    {
        if let Some(valid) = entries[i] {
            if valid {
                return -1;
            }
        }
        i = i + 1;
    }
    0
}

/// The permission bits of an accepted mapping: the read, write and execute
/// bits of `port` shifted to bits 1 to 3, with the user bit (bit 4) set.
pub fn mmap_permission(port: usize) -> (bits: u8)
    requires
        port_valid(port),
    ensures
        bits == port * 2 + 16,
{
    (port as u8) * 2 + 16
}

/// Whether a request to unmap `len` bytes at `start` is accepted (0) or
/// refused (-1). `entries` are the page table entries of the pages of
/// [`vpn_range`]; they are read only once the address is found aligned.
pub fn sys_munmap(start: usize, len: usize, entries: &Vec<Option<bool>>) -> (r: isize)
    requires
        start % PAGE_SIZE == 0 ==> start + len <= usize::MAX && entries.len() == page_ceil(
            start + len,
        ) - start / PAGE_SIZE,
    ensures
        r == (if munmap_accepted(start, entries@) {
            0isize
        } else {
            -1isize
        }),
        forall|i: int| 0 <= i < entries@.len() && #[trigger] entries@[i] != Some(true) ==> r == -1,
        start % PAGE_SIZE != 0 ==> r == -1,
        r == 0 <==> (start % PAGE_SIZE == 0 && forall|i: int|
            0 <= i < entries@.len() ==> #[trigger] entries@[i] == Some(true)),
{
    if !page_aligned(start) {
        return -1;
    }
    let n = entries.len();
    let mut i: usize = 0;
    while i < n
        invariant
            n == entries.len(),
            0 <= i <= n,
            forall|k: int| 0 <= k < i ==> #[trigger] entries@[k] == Some(true),
        decreases n - i,
    {
        match entries[i] {
            Some(valid) => {
                if !valid {
                    return -1;
                }
            },
            None => {
                return -1;
            },
        }
        i = i + 1;
    }
    0
}

/// The result of a request to move the program break, given what the move
/// returned: the old break (converted to `isize` as `as` converts), or -1
/// when the move was refused.
pub fn sys_sbrk(old_brk: Option<usize>) -> (r: isize)
    ensures
        old_brk matches Some(b) ==> r == b as isize,
        old_brk is None ==> r == -1,
{
    match old_brk {
        Some(b) => b as isize,
        None => -1,
    }
}

/// Every permission asked for by a port from 1 to 7 is accepted, whichever
/// of read, write and execute it names, and no other port is: a port is
/// valid exactly when it has a bit among the low three and none above them.
pub proof fn lemma_port_valid_exactly(port: usize)
    ensures
        port_valid(port) <==> 1 <= port <= 7,
        port_valid(port) <==> ((port & !7usize) == 0 && (port & 7usize) != 0),
{
    assert((port & !7usize) == 0usize <==> port < 8) by (bit_vector);
    assert(port < 8 ==> ((port & 7usize) == 0usize <==> port == 0)) by (bit_vector);
}

/// A mapping is refused as soon as any page of the range (at any position)
/// is mapped already.
pub proof fn lemma_mmap_refuses_any_mapped_page(
    start: usize,
    port: usize,
    entries: Seq<Option<bool>>,
    i: int,
)
    requires
        0 <= i < entries.len(),
        entries[i] == Some(true),
    ensures
        !mmap_accepted(start, port, entries),
{
}

/// On an aligned range with no page mapped, a mapping is accepted exactly
/// for the ports from 1 to 7.
pub proof fn lemma_mmap_accepts_free_aligned_range(
    start: usize,
    port: usize,
    entries: Seq<Option<bool>>,
)
    requires
        start % PAGE_SIZE == 0,
        forall|i: int| 0 <= i < entries.len() ==> entries[i] != Some(true),
    ensures
        mmap_accepted(start, port, entries) <==> 1 <= port <= 7,
{
}

/// An unmapping is refused as soon as any page of the range (at any
/// position) has no entry or an entry that is not valid.
pub proof fn lemma_munmap_refuses_any_unmapped_page(start: usize, entries: Seq<Option<bool>>, i: int)
    requires
        0 <= i < entries.len(),
        entries[i] != Some(true),
    ensures
        !munmap_accepted(start, entries),
{
}

/// An unmapping of an aligned range is accepted when every page of the range
/// is mapped.
pub proof fn lemma_munmap_accepts_mapped_aligned_range(start: usize, entries: Seq<Option<bool>>)
    requires
        start % PAGE_SIZE == 0,
        forall|i: int| 0 <= i < entries.len() ==> entries[i] == Some(true),
    ensures
        munmap_accepted(start, entries),
{
}

} // verus!
