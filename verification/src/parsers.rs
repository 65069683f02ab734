use vstd::prelude::*;

verus! {

use crate::structs::{
    ComboDirectoryEntry, ComboDirectoryHeader, DirectoryHeader, FirmwareEntryTable, Generation,
    PspDirectoryEntry, PspEntryHeader, PspError, COMBO_DIRECTORY_ENTRY_SIZE,
    COMBO_DIRECTORY_HEADER_SIZE, DIRECTORY_HEADER_SIZE, FET_SIZE, PSP_DIRECTORY_ENTRY_SIZE,
    PSP_ENTRY_HEADER_SIZE,
};

broadcast use crate::lemma_slice_len_bound, vstd::set::group_set_axioms,
    vstd::seq_lib::group_to_multiset_ensures, vstd::seq_lib::to_multiset_insert,
    vstd::multiset::group_multiset_axioms;

use crate::structs::{version_lt, Version};
use crate::utils::spec_resolve;

/// One discovery of the walk: absolute leaf location, the decoded leaf header
/// or the failure that struck there, and the generation tag of the combo
/// subtree that reached it.
pub type WalkItem = (usize, Result<PspEntryHeader, PspError>, Option<Generation>);

/// "2PSP" or "2BHD": the signature of a combo directory.
pub open spec fn is_combo_sig(b0: u8, b1: u8, b2: u8, b3: u8) -> bool {
    ||| (b0 == 0x32 && b1 == 0x50 && b2 == 0x53 && b3 == 0x50)
    ||| (b0 == 0x32 && b1 == 0x42 && b2 == 0x48 && b3 == 0x44)
}

/// "$PSP" or "$PL2": the signature of a simple directory.
pub open spec fn is_simple_sig(b0: u8, b1: u8, b2: u8, b3: u8) -> bool {
    ||| (b0 == 0x24 && b1 == 0x50 && b2 == 0x53 && b3 == 0x50)
    ||| (b0 == 0x24 && b1 == 0x50 && b2 == 0x4C && b3 == 0x32)
}

/// Every address a walk with base `offset` can ever resolve to.
pub open spec fn addr_space(offset: usize) -> Set<int> {
    vstd::set_lib::set_int_range(offset as int, offset as int + 0x1000000)
}

/// The set of addresses recorded on the current path.
pub open spec fn visited_set(v: Seq<usize>) -> Set<int> {
    Set::new(|a: int| exists|i: int| 0 <= i < v.len() && v[i] as int == a)
}

/// Number of resolvable addresses not yet on the path: the termination
/// measure of the walk.
pub open spec fn unvisited_count(offset: usize, v: Seq<usize>) -> nat {
    addr_space(offset).difference(visited_set(v)).len()
}

pub proof fn lemma_visited_set_mem(v: Seq<usize>, a: usize)
    ensures
        visited_set(v).contains(a as int) <==> v.contains(a),
{
    if v.contains(a) {
        let i = choose|i: int| 0 <= i < v.len() && v[i] == a;
        assert(v[i] as int == a as int);
        assert(visited_set(v).contains(a as int));
    }
    if visited_set(v).contains(a as int) {
        let i = choose|i: int| 0 <= i < v.len() && v[i] as int == a as int;
        assert(v[i] == a);
        assert(v.contains(a));
    }
}

pub proof fn lemma_visited_set_push(v: Seq<usize>, x: usize)
    ensures
        visited_set(v.push(x)) =~= visited_set(v).insert(x as int),
{
    let w = v.push(x);
    assert forall|a: int| visited_set(w).contains(a) implies visited_set(v).insert(
        x as int,
    ).contains(a) by {
        let i = choose|i: int| 0 <= i < w.len() && w[i] as int == a;
        if i < v.len() {
            assert(v[i] as int == a);
            assert(visited_set(v).contains(a));
        } else {
            assert(a == x as int);
        }
    };
    assert forall|a: int| visited_set(v).insert(x as int).contains(a) implies visited_set(
        w,
    ).contains(a) by {
        if a == x as int {
            assert(w[v.len() as int] as int == a);
        } else {
            let i = choose|i: int| 0 <= i < v.len() && v[i] as int == a;
            assert(w[i] as int == a);
        }
    };
}

pub proof fn lemma_visited_set_finite(v: Seq<usize>)
    ensures
        visited_set(v).finite(),
    decreases v.len(),
{
    if v.len() == 0 {
        assert(visited_set(v) =~= Set::<int>::empty());
    } else {
        let u = v.drop_last();
        lemma_visited_set_finite(u);
        assert(v =~= u.push(v.last()));
        lemma_visited_set_push(u, v.last());
        assert(visited_set(v) =~= visited_set(u).insert(v.last() as int));
    }
}

/// Recording a fresh in-range address on the path strictly shrinks the count
/// of unvisited addresses: the walk cannot recurse forever.
pub proof fn lemma_visit_decreases(offset: usize, v: Seq<usize>, addr: usize)
    requires
        offset <= addr < offset + 0x1000000,
        !v.contains(addr),
    ensures
        unvisited_count(offset, v.push(addr)) < unvisited_count(offset, v),
{
    let space = addr_space(offset);
    vstd::set_lib::lemma_int_range(offset as int, offset as int + 0x1000000);
    lemma_visited_set_finite(v);
    lemma_visited_set_push(v, addr);
    lemma_visited_set_mem(v, addr);
    let d1 = space.difference(visited_set(v));
    let d2 = space.difference(visited_set(v.push(addr)));
    assert(d2 =~= d1.remove(addr as int));
    assert(d1.contains(addr as int));
    assert(d1.len() <= space.len()) by {
        vstd::set_lib::lemma_len_subset(d1, space);
    }
}

/// What a walk rooted at raw location `location` discovers, given the base
/// offset of the tree, the generation tag handed down, and the absolute
/// addresses of the directories already open on the current path.
///
/// The dispatch mirrors the on-disk format: the four bytes at the resolved
/// address pick combo decoding, simple decoding, or an unknown-signature
/// failure; a resolved address already on the path is a detected cycle; any
/// declared range that leaves the buffer is truncated data.
pub open spec fn spec_parse_directory(
    data: Seq<u8>,
    location: usize,
    offset: usize,
    generation: Option<Generation>,
    visited: Seq<usize>,
) -> Seq<WalkItem>
    decreases unvisited_count(offset, visited), 0nat, 0nat,
        when offset + 0x1000000 <= usize::MAX
{
    let addr = spec_resolve(location, offset);
    let loc = addr as usize;
    if visited.contains(loc) {
        seq![(loc, Err(PspError::CycleDetected), generation)]
    } else if addr + 4 > data.len() {
        seq![(loc, Err(PspError::TruncatedData), generation)]
    } else {
        let b0 = data[addr];
        let b1 = data[addr + 1];
        let b2 = data[addr + 2];
        let b3 = data[addr + 3];
        let v2 = visited.push(loc);
        if is_combo_sig(b0, b1, b2, b3) {
            if addr + COMBO_DIRECTORY_HEADER_SIZE > data.len() {
                seq![(loc, Err(PspError::TruncatedData), None)]
            } else {
                let h = ComboDirectoryHeader::spec_decode(data, addr);
                if addr + COMBO_DIRECTORY_HEADER_SIZE + h.entries * COMBO_DIRECTORY_ENTRY_SIZE
                    > data.len() {
                    seq![(loc, Err(PspError::TruncatedData), None)]
                } else {
                    proof {
                        lemma_push_on_path(offset, visited, location);
                    }
                    spec_parse_combo_entries(
                        data,
                        addr + COMBO_DIRECTORY_HEADER_SIZE,
                        h.entries as int,
                        offset,
                        v2,
                    )
                }
            }
        } else if is_simple_sig(b0, b1, b2, b3) {
            if addr + DIRECTORY_HEADER_SIZE > data.len() {
                seq![(loc, Err(PspError::TruncatedData), generation)]
            } else {
                let h = DirectoryHeader::spec_decode(data, addr);
                if addr + DIRECTORY_HEADER_SIZE + h.entries * PSP_DIRECTORY_ENTRY_SIZE
                    > data.len() {
                    seq![(loc, Err(PspError::TruncatedData), generation)]
                } else {
                    proof {
                        lemma_push_on_path(offset, visited, location);
                    }
                    spec_parse_simple_entries(
                        data,
                        addr + DIRECTORY_HEADER_SIZE,
                        h.entries as int,
                        offset,
                        generation,
                        v2,
                    )
                }
            }
        } else {
            seq![(loc, Err(PspError::UnknownSignature(b0, b1, b2, b3)), generation)]
        }
    }
}

/// A directory whose declared entry count, times the entry record size, runs
/// past the end of the buffer yields exactly one truncated-data failure at
/// its own resolved address: its entry array is never read.
pub proof fn lemma_oversized_directory_is_truncated(
    data: Seq<u8>,
    location: usize,
    offset: usize,
    generation: Option<Generation>,
    visited: Seq<usize>,
)
    requires
        offset + 0x1000000 <= usize::MAX,
        !visited.contains(spec_resolve(location, offset) as usize),
        spec_resolve(location, offset) + 4 <= data.len(),
        ({
            let addr = spec_resolve(location, offset);
            let b0 = data[addr];
            let b1 = data[addr + 1];
            let b2 = data[addr + 2];
            let b3 = data[addr + 3];
            ||| (is_combo_sig(b0, b1, b2, b3) && addr + COMBO_DIRECTORY_HEADER_SIZE <= data.len()
                && addr + COMBO_DIRECTORY_HEADER_SIZE + ComboDirectoryHeader::spec_decode(
                data,
                addr,
            ).entries * COMBO_DIRECTORY_ENTRY_SIZE > data.len())
            ||| (is_simple_sig(b0, b1, b2, b3) && addr + DIRECTORY_HEADER_SIZE <= data.len()
                && addr + DIRECTORY_HEADER_SIZE + DirectoryHeader::spec_decode(data, addr).entries
                * PSP_DIRECTORY_ENTRY_SIZE > data.len())
        }),
    ensures
        spec_parse_directory(data, location, offset, generation, visited).len() == 1,
        spec_parse_directory(data, location, offset, generation, visited)[0].0 == spec_resolve(
            location,
            offset,
        ) as usize,
        spec_parse_directory(data, location, offset, generation, visited)[0].1
            == Err::<PspEntryHeader, PspError>(PspError::TruncatedData),
{
}

/// Helper for the termination proofs of the walk: pushing the resolved
/// address of an unvisited directory shrinks the measure.
pub proof fn lemma_push_on_path(offset: usize, visited: Seq<usize>, location: usize)
    requires
        offset + 0x1000000 <= usize::MAX,
        !visited.contains(spec_resolve(location, offset) as usize),
    ensures
        unvisited_count(offset, visited.push(spec_resolve(location, offset) as usize))
            < unvisited_count(offset, visited),
{
    assert(location & 0x00FFFFFF <= 0x00FFFFFF) by (bit_vector);
    let addr = spec_resolve(location, offset);
    lemma_visit_decreases(offset, visited, addr as usize);
}

/// The discoveries of the combo entries at `start`, `n` of them, each opening
/// a nested directory tagged with the entry's own generation id.
pub open spec fn spec_parse_combo_entries(
    data: Seq<u8>,
    start: int,
    n: int,
    offset: usize,
    visited: Seq<usize>,
) -> Seq<WalkItem>
    decreases unvisited_count(offset, visited), 1nat, n,
        when offset + 0x1000000 <= usize::MAX
{
    if n <= 0 {
        Seq::empty()
    } else {
        let e = ComboDirectoryEntry::spec_decode(data, start);
        spec_parse_directory(
            data,
            e.location as usize,
            offset,
            Some(Generation { id: e.id }),
            visited,
        ) + spec_parse_combo_entries(
            data,
            start + COMBO_DIRECTORY_ENTRY_SIZE,
            n - 1,
            offset,
            visited,
        )
    }
}

/// What one simple-directory entry contributes: nested-directory kinds
/// recurse, leaf kinds decode a leaf header at their resolved location, all
/// other kinds contribute nothing.
pub open spec fn spec_simple_entry_head(
    data: Seq<u8>,
    e: PspDirectoryEntry,
    offset: usize,
    generation: Option<Generation>,
    visited: Seq<usize>,
) -> Seq<WalkItem>
    decreases unvisited_count(offset, visited), 1nat, 0nat,
        when offset + 0x1000000 <= usize::MAX
{
    if e.kind == 0x40 || e.kind == 0x70 {
        spec_parse_directory(data, e.location as usize, offset, generation, visited)
    } else if e.kind == 0x08 || e.kind == 0x12 {
        let l = spec_resolve(e.location as usize, offset);
        if l + PSP_ENTRY_HEADER_SIZE <= data.len() {
            seq![(l as usize, Ok(PspEntryHeader::spec_decode(data, l)), generation)]
        } else {
            seq![(l as usize, Err(PspError::TruncatedData), generation)]
        }
    } else {
        Seq::empty()
    }
}

/// The discoveries of the simple-directory entries at `start`, `n` of them.
pub open spec fn spec_parse_simple_entries(
    data: Seq<u8>,
    start: int,
    n: int,
    offset: usize,
    generation: Option<Generation>,
    visited: Seq<usize>,
) -> Seq<WalkItem>
    decreases unvisited_count(offset, visited), 2nat, n,
        when offset + 0x1000000 <= usize::MAX
{
    if n <= 0 {
        Seq::empty()
    } else {
        let e = PspDirectoryEntry::spec_decode(data, start);
        spec_simple_entry_head(data, e, offset, generation, visited)
            + spec_parse_simple_entries(
            data,
            start + PSP_DIRECTORY_ENTRY_SIZE,
            n - 1,
            offset,
            generation,
            visited,
        )
    }
}

fn contains_addr(v: &Vec<usize>, addr: usize) -> (r: bool)
    ensures
        r == v@.contains(addr),
{
    let mut i: usize = 0;
    while i < v.len()
        invariant
            0 <= i <= v@.len(),
            forall|j: int| 0 <= j < i ==> v@[j] != addr,
        decreases v@.len() - i,
    {
        if v[i] == addr {
            return true;
        }
        i += 1;
    }
    false
}

fn push_visited(v: &Vec<usize>, addr: usize) -> (r: Vec<usize>)
    ensures
        r@ == v@.push(addr),
{
    let mut r: Vec<usize> = Vec::new();
    let mut i: usize = 0;
    while i < v.len()
        invariant
            0 <= i <= v@.len(),
            r@ == v@.subrange(0, i as int),
        decreases v@.len() - i,
    {
        r.push(v[i]);
        proof {
            assert(r@ =~= v@.subrange(0, i + 1));
        }
        i += 1;
    }
    proof {
        assert(r@ =~= v@);
    }
    r.push(addr);
    r
}

/// One bounds rule for every directory kind: the declared entry array, `n`
/// records of `entry_size` bytes following the header, must lie inside the
/// buffer; a count that overruns it is rejected before any entry is read.
fn entries_fit(data_len: usize, addr: usize, header_size: usize, n: u32, entry_size: usize) -> (r:
    bool)
    requires
        addr + header_size <= data_len,
        entry_size <= 0x10,
    ensures
        r == (addr + header_size + n * entry_size <= data_len),
{
    let avail = data_len - addr - header_size;
    proof {
        let nn = n as u64;
        let ee = entry_size as u64;
        assert(nn * ee <= 0xFFFF_FFFFu64 * 0x10) by (nonlinear_arith)
            requires
                nn <= 0xFFFF_FFFFu64,
                ee <= 0x10,
        ;
    }
    (n as u64) * (entry_size as u64) <= (avail as u64)
}

fn resolve_in_space(location: usize, offset: usize) -> (r: usize)
    requires
        offset + 0x1000000 <= usize::MAX,
    ensures
        r == spec_resolve(location, offset),
        offset <= r < offset + 0x1000000,
{
    proof {
        assert(location & 0x00FFFFFF <= 0x00FFFFFF) by (bit_vector);
    }
    crate::utils::resolve_location(location, offset)
}

/// Handles one simple-directory entry by its kind tag: nested-directory
/// kinds recurse into the directory at the entry's raw location, leaf kinds
/// decode a leaf header at their resolved location, and any other kind is
/// not meaningful to this scan and produces nothing.
fn parse_psp_entry(
    data: &[u8],
    e: &PspDirectoryEntry,
    offset: usize,
    generation: Option<Generation>,
    visited: &Vec<usize>,
) -> (r: Vec<WalkItem>)
    requires
        offset + 0x1000000 <= usize::MAX,
    ensures
        r@ == spec_simple_entry_head(data@, *e, offset, generation, visited@),
    decreases unvisited_count(offset, visited@), 0nat, 1nat,
{
    let mut out: Vec<WalkItem> = Vec::new();
    if e.kind == 0x40 || e.kind == 0x70 {
        let mut sub = walk_dir(data, e.location as usize, offset, generation, visited);
        out.append(&mut sub);
        proof {
            assert(out@ =~= spec_simple_entry_head(data@, *e, offset, generation, visited@));
        }
    } else if e.kind == 0x08 || e.kind == 0x12 {
        let l = resolve_in_space(e.location as usize, offset);
        if l <= data.len() && data.len() - l >= PSP_ENTRY_HEADER_SIZE {
            let hh = PspEntryHeader::decode(data, l);
            out.push((l, Ok(hh), generation));
        } else {
            out.push((l, Err(PspError::TruncatedData), generation));
        }
        proof {
            assert(out@ =~= spec_simple_entry_head(data@, *e, offset, generation, visited@));
        }
    }
    out
}

/// Walks the combo entries at `start`, `n` records: each selects a nested
/// directory, walked under the entry's own generation tag.
#[verifier::loop_isolation(false)]
fn parse_combo_directory(
    data: &[u8],
    start: usize,
    n: usize,
    offset: usize,
    visited: &Vec<usize>,
) -> (r: Vec<WalkItem>)
    requires
        offset + 0x1000000 <= usize::MAX,
        start + n * COMBO_DIRECTORY_ENTRY_SIZE <= data@.len(),
    ensures
        r@ == spec_parse_combo_entries(data@, start as int, n as int, offset, visited@),
    decreases unvisited_count(offset, visited@), 1nat, 0nat,
{
    let ghost total = spec_parse_combo_entries(data@, start as int, n as int, offset, visited@);
    let mut out: Vec<WalkItem> = Vec::new();
    proof {
        assert(Seq::<WalkItem>::empty() + total =~= total);
    }
    let mut i: usize = 0;
    while i < n
        invariant
            0 <= i <= n,
            out@ + spec_parse_combo_entries(
                data@,
                start + i * COMBO_DIRECTORY_ENTRY_SIZE,
                n - i,
                offset,
                visited@,
            ) == total,
        decreases n - i,
    {
        let ghost out_prev = out@;
        let e = ComboDirectoryEntry::decode(data, start + i * COMBO_DIRECTORY_ENTRY_SIZE);
        let mut sub = walk_dir(data, e.location as usize, offset, Some(e.try_get_gen()), visited);
        out.append(&mut sub);
        proof {
            let head = spec_parse_directory(
                data@,
                e.location as usize,
                offset,
                Some(Generation { id: e.id }),
                visited@,
            );
            let rest = spec_parse_combo_entries(
                data@,
                start + (i + 1) * COMBO_DIRECTORY_ENTRY_SIZE,
                n - i - 1,
                offset,
                visited@,
            );
            assert(start + i * COMBO_DIRECTORY_ENTRY_SIZE + COMBO_DIRECTORY_ENTRY_SIZE == start + (
            i + 1) * COMBO_DIRECTORY_ENTRY_SIZE);
            assert(spec_parse_combo_entries(
                data@,
                start + i * COMBO_DIRECTORY_ENTRY_SIZE,
                n - i,
                offset,
                visited@,
            ) == head + rest);
            assert((out_prev + head) + rest =~= out_prev + (head + rest));
        }
        i += 1;
    }
    proof {
        assert(out@ + Seq::<WalkItem>::empty() =~= out@);
    }
    out
}

/// Walks the simple-directory entries at `start`, `n` records, dispatching
/// each by its kind tag.
#[verifier::loop_isolation(false)]
fn parse_psp_directory(
    data: &[u8],
    start: usize,
    n: usize,
    offset: usize,
    generation: Option<Generation>,
    visited: &Vec<usize>,
) -> (r: Vec<WalkItem>)
    requires
        offset + 0x1000000 <= usize::MAX,
        start + n * PSP_DIRECTORY_ENTRY_SIZE <= data@.len(),
    ensures
        r@ == spec_parse_simple_entries(data@, start as int, n as int, offset, generation, visited@),
    decreases unvisited_count(offset, visited@), 1nat, 0nat,
{
    let ghost total = spec_parse_simple_entries(
        data@,
        start as int,
        n as int,
        offset,
        generation,
        visited@,
    );
    let mut out: Vec<WalkItem> = Vec::new();
    proof {
        assert(Seq::<WalkItem>::empty() + total =~= total);
    }
    let mut i: usize = 0;
    while i < n
        invariant
            0 <= i <= n,
            out@ + spec_parse_simple_entries(
                data@,
                start + i * PSP_DIRECTORY_ENTRY_SIZE,
                n - i,
                offset,
                generation,
                visited@,
            ) == total,
        decreases n - i,
    {
        let ghost out_prev = out@;
        let e = PspDirectoryEntry::decode(data, start + i * PSP_DIRECTORY_ENTRY_SIZE);
        let mut sub = parse_psp_entry(data, &e, offset, generation, visited);
        out.append(&mut sub);
        proof {
            let head = spec_simple_entry_head(data@, e, offset, generation, visited@);
            let rest = spec_parse_simple_entries(
                data@,
                start + (i + 1) * PSP_DIRECTORY_ENTRY_SIZE,
                n - i - 1,
                offset,
                generation,
                visited@,
            );
            assert(start + i * PSP_DIRECTORY_ENTRY_SIZE + PSP_DIRECTORY_ENTRY_SIZE == start + (i
                + 1) * PSP_DIRECTORY_ENTRY_SIZE);
            assert(spec_parse_simple_entries(
                data@,
                start + i * PSP_DIRECTORY_ENTRY_SIZE,
                n - i,
                offset,
                generation,
                visited@,
            ) == head + rest);
            assert((out_prev + head) + rest =~= out_prev + (head + rest));
        }
        i += 1;
    }
    proof {
        assert(out@ + Seq::<WalkItem>::empty() =~= out@);
    }
    out
}

/// Resolves the raw location and dispatches on the signature found there,
/// carrying the addresses already opened on this path so that a malformed
/// image that links a directory back to an ancestor is reported as a cycle
/// instead of recursed into forever.
fn walk_dir(
    data: &[u8],
    address: usize,
    offset: usize,
    generation: Option<Generation>,
    visited: &Vec<usize>,
) -> (r: Vec<WalkItem>)
    requires
        offset + 0x1000000 <= usize::MAX,
    ensures
        r@ == spec_parse_directory(data@, address, offset, generation, visited@),
    decreases unvisited_count(offset, visited@), 0nat, 0nat,
{
    let addr = resolve_in_space(address, offset);
    let mut out: Vec<WalkItem> = Vec::new();
    if contains_addr(visited, addr) {
        out.push((addr, Err(PspError::CycleDetected), generation));
        proof {
            assert(out@ =~= seq![(addr, Err::<PspEntryHeader, PspError>(PspError::CycleDetected), generation)]);
        }
        return out;
    }
    if data.len() < 4 || addr > data.len() - 4 {
        out.push((addr, Err(PspError::TruncatedData), generation));
        proof {
            assert(out@ =~= seq![(addr, Err::<PspEntryHeader, PspError>(PspError::TruncatedData), generation)]);
        }
        return out;
    }
    let b0 = data[addr];
    let b1 = data[addr + 1];
    let b2 = data[addr + 2];
    let b3 = data[addr + 3];
    let v2 = push_visited(visited, addr);
    proof {
        lemma_push_on_path(offset, visited@, address);
    }
    if (b0 == 0x32 && b1 == 0x50 && b2 == 0x53 && b3 == 0x50) || (b0 == 0x32 && b1 == 0x42 && b2
        == 0x48 && b3 == 0x44) {
        if data.len() - addr < COMBO_DIRECTORY_HEADER_SIZE {
            out.push((addr, Err(PspError::TruncatedData), None));
            proof {
                assert(out@ =~= seq![(addr, Err::<PspEntryHeader, PspError>(PspError::TruncatedData), None)]);
            }
            return out;
        }
        let h = ComboDirectoryHeader::decode(data, addr);
        if !entries_fit(
            data.len(),
            addr,
            COMBO_DIRECTORY_HEADER_SIZE,
            h.entries,
            COMBO_DIRECTORY_ENTRY_SIZE,
        ) {
            out.push((addr, Err(PspError::TruncatedData), None));
            proof {
                assert(out@ =~= seq![(addr, Err::<PspEntryHeader, PspError>(PspError::TruncatedData), None)]);
            }
            return out;
        }
        return parse_combo_directory(
            data,
            addr + COMBO_DIRECTORY_HEADER_SIZE,
            h.entries as usize,
            offset,
            &v2,
        );
    }
    if (b0 == 0x24 && b1 == 0x50 && b2 == 0x53 && b3 == 0x50) || (b0 == 0x24 && b1 == 0x50 && b2
        == 0x4C && b3 == 0x32) {
        if data.len() - addr < DIRECTORY_HEADER_SIZE {
            out.push((addr, Err(PspError::TruncatedData), generation));
            proof {
                assert(out@ =~= seq![(addr, Err::<PspEntryHeader, PspError>(PspError::TruncatedData), generation)]);
            }
            return out;
        }
        let h = DirectoryHeader::decode(data, addr);
        if !entries_fit(
            data.len(),
            addr,
            DIRECTORY_HEADER_SIZE,
            h.entries,
            PSP_DIRECTORY_ENTRY_SIZE,
        ) {
            out.push((addr, Err(PspError::TruncatedData), generation));
            proof {
                assert(out@ =~= seq![(addr, Err::<PspEntryHeader, PspError>(PspError::TruncatedData), generation)]);
            }
            return out;
        }
        return parse_psp_directory(
            data,
            addr + DIRECTORY_HEADER_SIZE,
            h.entries as usize,
            offset,
            generation,
            &v2,
        );
    }
    out.push((addr, Err(PspError::UnknownSignature(b0, b1, b2, b3)), generation));
    proof {
        assert(out@ =~= seq![(addr, Err::<PspEntryHeader, PspError>(PspError::UnknownSignature(b0, b1, b2, b3)), generation)]);
    }
    out
}

/// Walks one directory tree from its raw root location. Every discovery and
/// every local failure comes back as data; nothing panics and nothing reads
/// out of bounds, whatever bytes the image holds.
pub fn parse_directory(
    data: &[u8],
    address: usize,
    offset: usize,
    generation: Option<Generation>,
) -> (r: Vec<WalkItem>)
    requires
        offset + 0x1000000 <= usize::MAX,
    ensures
        r@ == spec_parse_directory(data@, address, offset, generation, Seq::empty()),
{
    let visited: Vec<usize> = Vec::new();
    walk_dir(data, address, offset, generation, &visited)
}

/// The flat discovery list of one walk from a tree root, before
/// reconciliation.
pub open spec fn spec_walk_result(data: Seq<u8>, address: usize, offset: usize) -> Seq<WalkItem> {
    spec_parse_directory(data, address, offset, None, Seq::empty())
}

/// `t` stands in `s`, and nothing earlier in `s` shares its location: `t` is
/// the discovery that reconciliation keeps for that location.
pub open spec fn is_first_occurrence(s: Seq<WalkItem>, t: WalkItem) -> bool {
    exists|j: int|
        0 <= j < s.len() && s[j] == t && (forall|k: int| 0 <= k < j ==> s[k].0 != t.0)
}

/// Some discovery in `s` sits at location `loc`.
pub open spec fn covers_location(s: Seq<WalkItem>, loc: usize) -> bool {
    exists|i: int| 0 <= i < s.len() && (#[trigger] s[i]).0 == loc
}

/// The presentation order: successes before failures; successes by reported
/// version, ties by location; failures by location.
pub open spec fn present_le(a: WalkItem, b: WalkItem) -> bool {
    match (a.1, b.1) {
        (Ok(h1), Ok(h2)) => version_lt(h1.spec_get_version(), h2.spec_get_version()) || (
        h1.spec_get_version() == h2.spec_get_version() && a.0 <= b.0),
        (Ok(h1), Err(e2)) => true,
        (Err(e1), Ok(h2)) => false,
        (Err(e1), Err(e2)) => a.0 <= b.0,
    }
}

pub open spec fn sorted_by_present(s: Seq<WalkItem>) -> bool {
    forall|i: int, j: int| 0 <= i < j < s.len() ==> present_le(s[i], s[j])
}

/// Any two discoveries are comparable under the presentation order.
pub proof fn lemma_present_le_total(a: WalkItem, b: WalkItem)
    ensures
        present_le(a, b) || present_le(b, a),
{
}

/// The presentation order is transitive.
pub proof fn lemma_present_le_trans(a: WalkItem, b: WalkItem, c: WalkItem)
    requires
        present_le(a, b),
        present_le(b, c),
    ensures
        present_le(a, c),
{
}

fn version_lt_exec(a: Version, b: Version) -> (r: bool)
    ensures
        r == version_lt(a, b),
{
    if a.major != b.major {
        a.major < b.major
    } else if a.minor != b.minor {
        a.minor < b.minor
    } else if a.micro != b.micro {
        a.micro < b.micro
    } else {
        a.build < b.build
    }
}

fn present_le_exec(a: &WalkItem, b: &WalkItem) -> (r: bool)
    ensures
        r == present_le(*a, *b),
{
    match (&a.1, &b.1) {
        (Ok(h1), Ok(h2)) => {
            let v1 = h1.get_version();
            let v2 = h2.get_version();
            if version_lt_exec(v1, v2) {
                true
            } else if v1 == v2 {
                a.0 <= b.0
            } else {
                false
            }
        },
        (Ok(h1), Err(e2)) => true,
        (Err(e1), Ok(h2)) => false,
        (Err(e1), Err(e2)) => a.0 <= b.0,
    }
}

fn contains_location(out: &Vec<WalkItem>, loc: usize) -> (r: bool)
    ensures
        r == covers_location(out@, loc),
{
    let mut i: usize = 0;
    while i < out.len()
        invariant
            0 <= i <= out@.len(),
            forall|j: int| 0 <= j < i ==> (#[trigger] out@[j]).0 != loc,
        decreases out@.len() - i,
    {
        if out[i].0 == loc {
            proof {
                assert((out@[i as int]).0 == loc);
            }
            return true;
        }
        i += 1;
    }
    proof {
        if covers_location(out@, loc) {
            let w = choose|w: int| 0 <= w < out@.len() && (#[trigger] out@[w]).0 == loc;
            assert(false);
        }
    }
    false
}

/// Keeps, for every location, the discovery that reached it first; all later
/// discoveries of the same location are duplicates reached through another
/// directory path.
#[verifier::loop_isolation(false)]
fn dedup_by_location(v: &Vec<WalkItem>) -> (r: Vec<WalkItem>)
    ensures
        forall|i: int, j: int| 0 <= i < j < r@.len() ==> r@[i].0 != r@[j].0,
        forall|i: int| 0 <= i < r@.len() ==> is_first_occurrence(v@, r@[i]),
        forall|j: int| 0 <= j < v@.len() ==> covers_location(r@, (#[trigger] v@[j]).0),
{
    let mut out: Vec<WalkItem> = Vec::new();
    let mut j: usize = 0;
    while j < v.len()
        invariant
            0 <= j <= v@.len(),
            forall|a: int, b: int| 0 <= a < b < out@.len() ==> out@[a].0 != out@[b].0,
            forall|i: int| 0 <= i < out@.len() ==> is_first_occurrence(v@, out@[i]),
            forall|k: int| 0 <= k < j ==> covers_location(out@, (#[trigger] v@[k]).0),
        decreases v@.len() - j,
    {
        let t = v[j];
        let ghost out_prev = out@;
        if !contains_location(&out, t.0) {
            proof {
                assert forall|k: int| 0 <= k < j implies v@[k].0 != t.0 by {
                    assert(covers_location(out@, v@[k].0));
                    let i = choose|i: int| 0 <= i < out@.len() && (#[trigger] out@[i]).0
                        == v@[k].0;
                }
                assert(v@[j as int] == t && (forall|k: int| 0 <= k < j ==> v@[k].0 != t.0));
            }
            out.push(t);
        }
        proof {
            assert forall|k: int| 0 <= k < j + 1 implies covers_location(
                out@,
                (#[trigger] v@[k]).0,
            ) by {
                if k < j {
                    assert(covers_location(out_prev, v@[k].0));
                    let i = choose|i: int|
                        0 <= i < out_prev.len() && (#[trigger] out_prev[i]).0 == v@[k].0;
                    assert((out@[i]).0 == v@[k].0);
                } else {
                    if out@.len() > out_prev.len() {
                        assert((out@[out@.len() - 1]).0 == v@[k].0);
                    } else {
                        assert(covers_location(out_prev, t.0));
                        let i = choose|i: int|
                            0 <= i < out_prev.len() && (#[trigger] out_prev[i]).0 == t.0;
                        assert((out@[i]).0 == v@[k].0);
                    }
                }
            }
        }
        j += 1;
    }
    out
}

#[verifier::loop_isolation(false)]
fn find_insert_pos(r: &Vec<WalkItem>, x: &WalkItem) -> (k: usize)
    requires
        sorted_by_present(r@),
    ensures
        k <= r@.len(),
        forall|m: int| 0 <= m < k ==> present_le(r@[m], *x),
        k < r@.len() ==> present_le(*x, r@[k as int]),
{
    let mut k: usize = 0;
    while k < r.len()
        invariant
            0 <= k <= r@.len(),
            forall|m: int| 0 <= m < k ==> present_le(r@[m], *x),
        decreases r@.len() - k,
    {
        if present_le_exec(x, &r[k]) {
            return k;
        }
        proof {
            lemma_present_le_total(*x, r@[k as int]);
        }
        k += 1;
    }
    k
}

/// Sorts discoveries into the presentation order; the result holds exactly
/// the same discoveries.
#[verifier::loop_isolation(false)]
fn sort_by_present(v: Vec<WalkItem>) -> (r: Vec<WalkItem>)
    ensures
        sorted_by_present(r@),
        r@.to_multiset() == v@.to_multiset(),
{
    let mut r: Vec<WalkItem> = Vec::new();
    proof {
        assert(v@.subrange(0, 0) =~= Seq::<WalkItem>::empty());
        assert(r@.to_multiset() =~= v@.subrange(0, 0).to_multiset());
    }
    let mut idx: usize = 0;
    while idx < v.len()
        invariant
            0 <= idx <= v@.len(),
            sorted_by_present(r@),
            r@.to_multiset() == v@.subrange(0, idx as int).to_multiset(),
        decreases v@.len() - idx,
    {
        let x = v[idx];
        let ghost r_old = r@;
        let k = find_insert_pos(&r, &x);
        r.insert(k, x);
        proof {
            r_old.insert_ensures(k as int, x);
            assert forall|a: int, b: int| 0 <= a < b < r@.len() implies present_le(
                r@[a],
                r@[b],
            ) by {
                if b < k {
                    assert(r@[a] == r_old[a] && r@[b] == r_old[b]);
                } else if b == k {
                    assert(r@[a] == r_old[a] && r@[b] == x);
                } else if a < k {
                    assert(r@[a] == r_old[a] && r@[b] == r_old[b - 1]);
                    assert(a <= b - 1 < r_old.len());
                    if a < b - 1 {
                        assert(present_le(r_old[a], r_old[b - 1]));
                    }
                } else if a == k {
                    assert(r@[a] == x && r@[b] == r_old[b - 1]);
                    assert(k <= b - 1 < r_old.len());
                    assert(present_le(x, r_old[k as int]));
                    if k < b - 1 {
                        lemma_present_le_trans(x, r_old[k as int], r_old[b - 1]);
                    }
                } else {
                    assert(r@[a] == r_old[a - 1] && r@[b] == r_old[b - 1]);
                }
            }
            assert(v@.subrange(0, idx + 1) =~= v@.subrange(0, idx as int).push(v@[idx as int]));
            assert(r@.to_multiset() == v@.subrange(0, idx + 1).to_multiset());
        }
        idx += 1;
    }
    proof {
        assert(v@.subrange(0, v@.len() as int) =~= v@);
    }
    r
}

proof fn lemma_dup_count(s: Seq<WalkItem>, i: int, j: int)
    requires
        0 <= i < j < s.len(),
        s[i] == s[j],
    ensures
        s.to_multiset().count(s[i]) >= 2,
{
    let a = s[i];
    let s2 = s.remove(i);
    s.remove_ensures(i);
    assert(s2[j - 1] == a);
    assert(s2.contains(a));
    assert(s2.to_multiset() =~= s.to_multiset().remove(a));
    assert(s2.to_multiset().count(a) > 0);
    assert(s.to_multiset().count(a) == s2.to_multiset().count(a) + 1);
}

/// A reordering of a duplicate-free-by-location list keeps its elements,
/// covers the same locations, and stays duplicate-free.
proof fn lemma_permutation_props(d: Seq<WalkItem>, s: Seq<WalkItem>)
    requires
        s.to_multiset() == d.to_multiset(),
        forall|i: int, j: int| 0 <= i < j < d.len() ==> d[i].0 != d[j].0,
    ensures
        forall|i: int, j: int| 0 <= i < j < s.len() ==> s[i].0 != s[j].0,
        forall|i: int| 0 <= i < s.len() ==> d.contains(#[trigger] s[i]),
        forall|m: int| 0 <= m < d.len() ==> s.contains(#[trigger] d[m]),
{
    assert(d.no_duplicates()) by {
        assert forall|i: int, j: int| 0 <= i < j < d.len() implies d[i] != d[j] by {
            assert(d[i].0 != d[j].0);
        }
    }
    d.lemma_multiset_has_no_duplicates();
    assert forall|i: int| 0 <= i < s.len() implies d.contains(#[trigger] s[i]) by {
        assert(s.contains(s[i]));
        assert(s.to_multiset().count(s[i]) > 0);
        assert(d.to_multiset().count(s[i]) > 0);
    }
    assert forall|m: int| 0 <= m < d.len() implies s.contains(#[trigger] d[m]) by {
        assert(d.contains(d[m]));
        assert(d.to_multiset().count(d[m]) > 0);
        assert(s.to_multiset().count(d[m]) > 0);
    }
    assert forall|i: int, j: int| 0 <= i < j < s.len() implies s[i].0 != s[j].0 by {
        if s[i].0 == s[j].0 {
            assert(d.contains(s[i]));
            assert(d.contains(s[j]));
            let mi = choose|m: int| 0 <= m < d.len() && d[m] == s[i];
            let mj = choose|m: int| 0 <= m < d.len() && d[m] == s[j];
            assert(d[mi] == s[i] && d[mj] == s[j]);
            if mi != mj {
                if mi < mj {
                    assert(d[mi].0 != d[mj].0);
                } else {
                    assert(d[mj].0 != d[mi].0);
                }
                assert(false);
            }
            assert(s[i] == s[j]);
            lemma_dup_count(s, i, j);
            assert(s.to_multiset().count(s[i]) >= 2);
            assert(d.to_multiset().count(s[i]) == 1);
            assert(false);
        }
    }
}

/// `r` is the reconciliation of the discovery list `w`: its locations are
/// distinct, each of its entries is the discovery that reached its location
/// first, every discovered location is represented, and the whole stands in
/// the presentation order.
pub open spec fn reconciled(r: Seq<WalkItem>, w: Seq<WalkItem>) -> bool {
    &&& forall|i: int, j: int| 0 <= i < j < r.len() ==> r[i].0 != r[j].0
    &&& forall|i: int| 0 <= i < r.len() ==> is_first_occurrence(w, #[trigger] r[i])
    &&& forall|j: int| 0 <= j < w.len() ==> covers_location(r, (#[trigger] w[j]).0)
    &&& sorted_by_present(r)
}

/// Walks one directory tree and reconciles the discoveries: exactly one entry
/// per discovered location (the one reached first), successes ordered by
/// reported version then location, failures after them ordered by location.
#[verifier::loop_isolation(false)]
pub fn parse_directories(data: &[u8], address: usize, offset: usize) -> (r: Vec<WalkItem>)
    requires
        offset + 0x1000000 <= usize::MAX,
    ensures
        reconciled(r@, spec_walk_result(data@, address, offset)),
{
    let walk = parse_directory(data, address, offset, None);
    let deduped = dedup_by_location(&walk);
    let ghost d = deduped@;
    let r = sort_by_present(deduped);
    proof {
        lemma_permutation_props(d, r@);
        assert forall|i: int|
            0 <= i < r@.len() implies is_first_occurrence(
            spec_walk_result(data@, address, offset),
            r@[i],
        ) by {
            assert(d.contains(r@[i]));
            let m = choose|m: int| 0 <= m < d.len() && d[m] == r@[i];
            assert(is_first_occurrence(walk@, d[m]));
        }
        assert forall|j: int|
            0 <= j < spec_walk_result(data@, address, offset).len() implies covers_location(
            r@,
            (#[trigger] spec_walk_result(data@, address, offset)[j]).0,
        ) by {
            let w = spec_walk_result(data@, address, offset);
            assert(covers_location(d, w[j].0));
            let m = choose|m: int| 0 <= m < d.len() && (#[trigger] d[m]).0 == w[j].0;
            assert(r@.contains(d[m]));
            let i = choose|i: int| 0 <= i < r@.len() && r@[i] == d[m];
            assert((r@[i]).0 == w[j].0);
        }
    }
    r
}

/// Everything found under one anchor: the anchor's absolute address and the
/// reconciled discoveries of the directory tree it declares.
#[derive(Debug)]
pub struct AnchorReport {
    pub address: usize,
    pub entries: Vec<WalkItem>,
}

/// An anchor match the analysis can use: the captured bytes hold a whole
/// anchor record, and the anchor sits far enough into the image for its base
/// offset to exist.
pub open spec fn spec_anchor_usable(m: (usize, Seq<u8>)) -> bool {
    m.1.len() >= FET_SIZE && m.0 >= 0x20000
}

/// For the anchor matches from `i` on, the (address, root location) pair of
/// each usable one, in match order.
pub open spec fn spec_anchor_params(ms: Seq<(usize, Seq<u8>)>, i: int) -> Seq<(usize, usize)>
    decreases ms.len() - i,
{
    if i < 0 || i >= ms.len() {
        Seq::empty()
    } else {
        let head = if spec_anchor_usable(ms[i]) {
            seq![(ms[i].0, FirmwareEntryTable::spec_decode(ms[i].1, 0).psp as usize)]
        } else {
            Seq::empty()
        };
        head + spec_anchor_params(ms, i + 1)
    }
}

/// Scans the whole image for firmware entry table anchors and walks each
/// one's directory tree: one report per usable anchor, in the order the
/// anchors sit in the image, each holding that tree's reconciled
/// discoveries with the anchor's own base offset. An image with no anchor at
/// all yields the one fatal error.
#[verifier::loop_isolation(false)]
pub fn analyze_image(data: &[u8]) -> (r: Result<Vec<AnchorReport>, PspError>)
    requires
        data@.len() + 0x1000000 <= usize::MAX,
    ensures
        ({
            let ms = crate::utils::scan_of(
                "\\xFF{16}(\\xAA\\x55\\xAA\\x55.{76})\\xFF{16}"@,
                data@,
            );
            match r {
                Err(e) => e == PspError::NoAnchorFound && ms.len() == 0,
                Ok(reports) => {
                    let ps = spec_anchor_params(ms, 0);
                    &&& ms.len() > 0
                    &&& reports@.len() == ps.len()
                    &&& forall|k: int|
                        0 <= k < ps.len() ==> (#[trigger] reports@[k]).address == ps[k].0
                            && reconciled(
                            reports@[k].entries@,
                            spec_walk_result(
                                data@,
                                ps[k].1,
                                (ps[k].0 - 0x20000) as usize,
                            ),
                        )
                },
            }
        }),
{
    let fets = crate::utils::find_pattern(data, "\\xFF{16}(\\xAA\\x55\\xAA\\x55.{76})\\xFF{16}");
    if fets.len() == 0 {
        return Err(PspError::NoAnchorFound);
    }
    let ghost ms = crate::utils::matches_view(fets@);
    let ghost ps0 = spec_anchor_params(ms, 0);
    let mut reports: Vec<AnchorReport> = Vec::new();
    let mut i: usize = 0;
    proof {
        assert(ps0.subrange(0, ps0.len() as int) =~= ps0);
    }
    while i < fets.len()
        invariant
            0 <= i <= fets@.len(),
            reports@.len() <= ps0.len(),
            ps0.subrange(reports@.len() as int, ps0.len() as int) == spec_anchor_params(
                ms,
                i as int,
            ),
            forall|k: int|
                0 <= k < reports@.len() ==> (#[trigger] reports@[k]).address == ps0[k].0
                    && reconciled(
                    reports@[k].entries@,
                    spec_walk_result(data@, ps0[k].1, (ps0[k].0 - 0x20000) as usize),
                ),
        decreases fets@.len() - i,
    {
        let ghost reports_prev = reports@;
        let addr = fets[i].0;
        let bytes_len = fets[i].1.len();
        proof {
            assert(ms[i as int] == (fets@[i as int].0, fets@[i as int].1@));
        }
        if bytes_len >= FET_SIZE && addr >= 0x20000 {
            let fet = match FirmwareEntryTable::new(fets[i].1.as_slice()) {
                Ok(fet) => fet,
                Err(e) => {
                    proof {
                        assert(false);
                    }
                    return Err(e);
                },
            };
            let offset = addr - 0x20000;
            let entries = parse_directories(data, fet.psp as usize, offset);
            reports.push(AnchorReport { address: addr, entries });
            proof {
                let head = seq![
                    (ms[i as int].0, FirmwareEntryTable::spec_decode(ms[i as int].1, 0).psp
                        as usize),
                ];
                assert(spec_anchor_usable(ms[i as int]));
                assert(spec_anchor_params(ms, i as int) == head + spec_anchor_params(
                    ms,
                    i + 1,
                ));
                let base = reports_prev.len() as int;
                let sub = ps0.subrange(base, ps0.len() as int);
                assert(sub == head + spec_anchor_params(ms, i + 1));
                assert(sub.len() >= 1);
                assert(base < ps0.len());
                assert(sub[0] == ps0[base]);
                assert(sub[0] == head[0]);
                let tail = spec_anchor_params(ms, i + 1);
                assert forall|t: int|
                    0 <= t < ps0.len() - base - 1 implies ps0.subrange(
                    base + 1,
                    ps0.len() as int,
                )[t] == tail[t] by {
                    assert(ps0.subrange(base + 1, ps0.len() as int)[t] == ps0[base + 1 + t]);
                    assert(sub[t + 1] == ps0[base + 1 + t]);
                    assert(sub[t + 1] == (head + tail)[t + 1]);
                    assert((head + tail)[t + 1] == tail[t]);
                }
                assert(ps0.subrange(base + 1, ps0.len() as int) =~= tail);
                assert(reports@.len() as int == base + 1);
            }
        } else {
            proof {
                assert(spec_anchor_params(ms, i as int) =~= Seq::<(usize, usize)>::empty()
                    + spec_anchor_params(ms, i + 1));
                assert(ps0.subrange(reports@.len() as int, ps0.len() as int)
                    =~= spec_anchor_params(ms, i + 1));
            }
        }
        i += 1;
    }
    proof {
        assert(spec_anchor_params(ms, fets@.len() as int) =~= Seq::<(usize, usize)>::empty());
        assert(ps0.subrange(reports@.len() as int, ps0.len() as int).len() == 0);
        assert(reports@.len() == ps0.len());
    }
    Ok(reports)
}

} // verus!
