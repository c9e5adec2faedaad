//! Process-management system calls: exit, yield, time, trace, memory
//! mapping and the program break.
use vstd::prelude::*;
use vstd::endian::endianness;
use vstd::bytes::spec_u64_to_le_bytes;
use crate::config::{MAX_USER_VA, PAGE_SIZE, VA_LIMIT, VPN_LIMIT};
use crate::mm::{
    MemorySet, VirtAddr, SpaceView, space_wf, byte_at, with_byte, with_bytes, bytes_mapped,
    segments_cover, page_floor, page_ceil, range_mapped, range_unmapped,
    range_none_mapped, range_within, page_range, area_inserted, MAP_PERM_R, MAP_PERM_W, MAP_PERM_X, MAP_PERM_U, PTE_R, PTE_W, PTE_U,
    PTE_V,
};
use crate::task::control_block::brk_changed;
use crate::task::{
    Kernel, Schedule, yielded, exited, tasks_kept, kernel_step, syscall_times, exit_current_and_run_next,
    suspend_current_and_run_next, change_program_brk, get_syscall_times, insert_framed_area,
    unmap_framed_area,
};

verus! {

/// A time as seconds and microseconds.
#[derive(Clone, Copy, Debug, PartialEq, Eq, Structural)]
pub struct TimeVal {
    pub sec: usize,
    pub usec: usize,
}

/// Size in bytes of a `TimeVal` in user memory: two 64-bit words.
pub const TIME_VAL_SIZE: u64 = 16;

/// The `TimeVal` of a clock reading in microseconds.
pub open spec fn time_val_of(time_us: usize) -> TimeVal {
    TimeVal { sec: time_us / 1_000_000, usec: time_us % 1_000_000 }
}

/// The bytes of `x` in the byte order of the machine.
pub open spec fn native_bytes(x: u64) -> Seq<u8> {
    if endianness() is Little {
        spec_u64_to_le_bytes(x)
    } else {
        spec_u64_to_le_bytes(x).reverse()
    }
}

/// The bytes of `tv` as it lies in user memory: the seconds, then the
/// microseconds, each a 64-bit word in the byte order of the machine.
pub open spec fn time_val_bytes(tv: TimeVal) -> Seq<u8> {
    native_bytes(tv.sec as u64) + native_bytes(tv.usec as u64)
}

/// The bytes of `x` in the byte order of the machine (`u64::to_ne_bytes`).
#[verifier::external_body]
fn u64_to_ne_bytes(x: u64) -> (r: [u8; 8])
    ensures
        r@ == native_bytes(x),
{
    x.to_ne_bytes()
}

/// Copies `bytes` into the user buffer that `segs` cuts into per-page
/// pieces, filling each piece in turn.
fn copy_to_user(memory_set: &mut MemorySet, segs: &Vec<(u64, u64)>, bytes: &Vec<u8>, ptr: u64)
    requires
        old(memory_set).wf(),
        segments_cover(segs@, ptr as nat, (ptr + bytes.len()) as nat),
        ptr + bytes.len() <= VA_LIMIT,
        bytes_mapped(old(memory_set)@, ptr as nat, bytes.len() as nat),
    ensures
        final(memory_set).wf(),
        final(memory_set)@ == with_bytes(old(memory_set)@, ptr as nat, bytes@, bytes.len() as nat),
        final(memory_set).app_pages() == old(memory_set).app_pages(),
{
    let mut offset: usize = 0;
    let mut i: usize = 0;
    while i < segs.len()
        invariant
            memory_set.wf(),
            segments_cover(segs@, ptr as nat, (ptr + bytes.len()) as nat),
            ptr + bytes.len() <= VA_LIMIT,
            bytes_mapped(old(memory_set)@, ptr as nat, bytes.len() as nat),
            space_wf(old(memory_set)@),
            0 <= i <= segs.len(),
            i < segs.len() ==> offset == segs@[i as int].0 - ptr,
            i == segs.len() ==> offset == bytes.len(),
            offset <= bytes.len(),
            memory_set@ == with_bytes(old(memory_set)@, ptr as nat, bytes@, offset as nat),
            memory_set@.dom() == old(memory_set)@.dom(),
            memory_set.app_pages() == old(memory_set).app_pages(),
        decreases segs.len() - i,
    {
        let (seg_va, seg_len) = segs[i];
        assert(seg_va + seg_len <= ptr + bytes.len()) by {
            if i + 1 < segs.len() {
                assert(segs@[i + 1].0 == segs@[i as int].0 + segs@[i as int].1);
            }
            lemma_segments_bounded(segs@, ptr as nat, (ptr + bytes.len()) as nat, i as int);
        }
        let mut j: u64 = 0;
        while j < seg_len
            invariant
                memory_set.wf(),
                0 <= j <= seg_len,
                seg_va == ptr + offset,
                seg_va + seg_len <= ptr + bytes.len(),
                ptr + bytes.len() <= VA_LIMIT,
                bytes_mapped(old(memory_set)@, ptr as nat, bytes.len() as nat),
                space_wf(old(memory_set)@),
                memory_set@ == with_bytes(old(memory_set)@, ptr as nat, bytes@, (offset + j) as nat),
                memory_set@.dom() == old(memory_set)@.dom(),
                memory_set.app_pages() == old(memory_set).app_pages(),
            decreases seg_len - j,
        {
            let va = seg_va + j;
            let k = offset + j as usize;
            assert(old(memory_set)@.contains_key((va as nat / (PAGE_SIZE as nat)) as u64));
            memory_set.write_byte(va, bytes[k]);
            assert(memory_set@.dom() =~= old(memory_set)@.dom());
            j = j + 1;
        }
        offset = offset + seg_len as usize;
        i = i + 1;
    }
}

/// Every piece of a cover ends inside the covered range.
proof fn lemma_segments_bounded(segs: Seq<(u64, u64)>, ptr: nat, end: nat, i: int)
    requires
        segments_cover(segs, ptr, end),
        0 <= i < segs.len(),
    ensures
        segs[i].0 + segs[i].1 <= end,
        ptr <= segs[i].0,
    decreases segs.len() - i,
{
    if i + 1 < segs.len() {
        assert(segs[i + 1].0 == segs[i].0 + segs[i].1);
        lemma_segments_bounded(segs, ptr, end, i + 1);
    }
    lemma_segments_start(segs, ptr, end, i);
}

/// Every piece of a cover starts at or after the start of the range.
proof fn lemma_segments_start(segs: Seq<(u64, u64)>, ptr: nat, end: nat, i: int)
    requires
        segments_cover(segs, ptr, end),
        0 <= i < segs.len(),
    ensures
        ptr <= segs[i].0,
    decreases i,
{
    if i > 0 {
        assert(segs[(i - 1) + 1].0 == segs[i - 1].0 + segs[i - 1].1);
        lemma_segments_start(segs, ptr, end, i - 1);
    }
}

/// The current task exits with `exit_code`: it is marked exited and the
/// next task is picked. The exited task does not run again; on
/// `AllCompleted` the kernel stops.
pub fn sys_exit(kernel: &mut Kernel, exit_code: i32, now_ms: usize) -> (r: Schedule)
    requires
        old(kernel).wf(),
        old(kernel).task_manager.num_app > 0,
        old(kernel).tmp_time <= now_ms,
        old(kernel).task_manager.cur().kernel_time + (now_ms - old(kernel).tmp_time) <= usize::MAX,
    ensures
        kernel_step(*old(kernel), *final(kernel), None),
        final(kernel).wf(),
        exited(*old(kernel), *final(kernel), now_ms, r),
{
    exit_current_and_run_next(kernel, now_ms)
}

/// The task gives up the processor: it is suspended and the next task is
/// picked; the call returns 0 once the task runs again.
pub fn sys_yield(kernel: &mut Kernel, now_ms: usize) -> (r: (isize, Schedule))
    requires
        old(kernel).wf(),
        old(kernel).task_manager.num_app > 0,
        old(kernel).tmp_time <= now_ms,
        old(kernel).task_manager.cur().kernel_time + (now_ms - old(kernel).tmp_time) <= usize::MAX,
    ensures
        kernel_step(*old(kernel), *final(kernel), None),
        final(kernel).wf(),
        r.0 == 0,
        yielded(*old(kernel), *final(kernel), now_ms, r.1),
{
    let s = suspend_current_and_run_next(kernel, now_ms);
    (0, s)
}

/// Writes the clock reading `time_us` as a `TimeVal` to user address `ts`
/// of the current task and returns 0. `tz` is ignored.
pub fn sys_get_time(kernel: &mut Kernel, ts: usize, tz: usize, time_us: usize) -> (r: isize)
    requires
        old(kernel).wf(),
        old(kernel).task_manager.num_app > 0,
        ts + TIME_VAL_SIZE <= VA_LIMIT,
        bytes_mapped(old(kernel).task_manager.cur().memory_set@, ts as nat, TIME_VAL_SIZE as nat),
    ensures
        kernel_step(*old(kernel), *final(kernel), None),
        tasks_kept(*old(kernel), *final(kernel)),
        r == 0,
        final(kernel).wf(),
        final(kernel).task_manager.same_but_current(old(kernel).task_manager),
        final(kernel).task_manager.cur().same_but_memory(old(kernel).task_manager.cur()),
        final(kernel).task_manager.cur().memory_set.app_pages()
            == old(kernel).task_manager.cur().memory_set.app_pages(),
        final(kernel).task_manager.cur().memory_set@ == with_bytes(
            old(kernel).task_manager.cur().memory_set@,
            ts as nat,
            time_val_bytes(time_val_of(time_us)),
            TIME_VAL_SIZE as nat,
        ),
        time_val_of(time_us).usec < 1_000_000,
        time_val_of(time_us).sec * 1_000_000 + time_val_of(time_us).usec == time_us,
        final(kernel).switch_time == old(kernel).switch_time,
        final(kernel).tmp_time == old(kernel).tmp_time,
{
    let cur = kernel.task_manager.current_task;
    let ptr = ts as u64;
    let v = kernel.task_manager.tasks[cur].memory_set.translated_byte_buffer(ptr, TIME_VAL_SIZE);
    let time = time_us;
    let tv = TimeVal { sec: time / 1_000_000, usec: time % 1_000_000 };
    let sec_bytes = u64_to_ne_bytes(tv.sec as u64);
    let usec_bytes = u64_to_ne_bytes(tv.usec as u64);
    let mut time_bytes: Vec<u8> = Vec::new();
    let mut k: usize = 0;
    while k < 8
        invariant
            0 <= k <= 8,
            sec_bytes@.len() == 8,
            time_bytes@ == sec_bytes@.subrange(0, k as int),
        decreases 8 - k,
    {
        time_bytes.push(sec_bytes[k]);
        k = k + 1;
    }
    k = 0;
    while k < 8
        invariant
            0 <= k <= 8,
            sec_bytes@.len() == 8,
            usec_bytes@.len() == 8,
            time_bytes@ == sec_bytes@ + usec_bytes@.subrange(0, k as int),
        decreases 8 - k,
    {
        time_bytes.push(usec_bytes[k]);
        k = k + 1;
    }
    assert(time_bytes@ =~= time_val_bytes(time_val_of(time_us)));
    copy_to_user(&mut kernel.task_manager.tasks[cur].memory_set, &v, &time_bytes, ptr);
    0
}

/// Whether `trace` may read (`req == 0`) or write (`req == 1`) the byte at
/// user address `id`: the address is a user address, its page is mapped,
/// user-accessible and readable or writable as asked.
pub open spec fn trace_permitted(m: SpaceView, req: usize, id: usize) -> bool {
    let vpn = (id as nat / (PAGE_SIZE as nat)) as u64;
    &&& id <= MAX_USER_VA
    &&& m.contains_key(vpn)
    &&& (m[vpn].0 & PTE_R != 0 && req == 0 || m[vpn].0 & PTE_W != 0 && req == 1)
    &&& m[vpn].0 & PTE_U != 0
}

/// Traces the current task. `trace_request` 0 reads the byte at user
/// address `id`, 1 writes the low byte of `data` there and returns 0, 2
/// returns how many times system call `id` was made (see
/// `get_syscall_times`). A read or write that the page table does not
/// allow, and any other request, returns -1 and changes nothing.
pub fn sys_trace(kernel: &mut Kernel, trace_request: usize, id: usize, data: usize) -> (r: isize)
    requires
        old(kernel).wf(),
        old(kernel).task_manager.num_app > 0,
    ensures
        kernel_step(*old(kernel), *final(kernel), None),
        tasks_kept(*old(kernel), *final(kernel)),
        final(kernel).wf(),
        final(kernel).switch_time == old(kernel).switch_time,
        final(kernel).tmp_time == old(kernel).tmp_time,
        final(kernel).task_manager.same_but_current(old(kernel).task_manager),
        final(kernel).task_manager.cur().same_but_memory(old(kernel).task_manager.cur()),
        final(kernel).task_manager.cur().memory_set.app_pages()
            == old(kernel).task_manager.cur().memory_set.app_pages(),
        ({
            let m = old(kernel).task_manager.cur().memory_set@;
            let m1 = final(kernel).task_manager.cur().memory_set@;
            if trace_request == 2 {
                &&& r == syscall_times(old(kernel).task_manager.cur(), id)
                &&& m1 == m
            } else if !trace_permitted(m, trace_request, id) {
                &&& r == -1
                &&& m1 == m
            } else if trace_request == 0 {
                &&& r == byte_at(m, id as nat) as isize
                &&& m1 == m
            } else {
                &&& r == 0
                &&& m1 == with_byte(m, id as nat, data as u8)
            }
        }),
{
    let cur = kernel.task_manager.current_task;
    if trace_request != 2 {
        if id as u64 > MAX_USER_VA {
            return -1;
        }
        let va = VirtAddr::from_u64(id as u64);
        assert(va.0 == id as u64);
        match kernel.task_manager.tasks[cur].memory_set.translate(va.floor()) {
            Some(pte) => {
                if !((pte.readable() && trace_request == 0 || pte.writable() && trace_request == 1)
                    && pte.flags() & PTE_U != 0) {
                    return -1;
                }
            },
            None => return -1,
        }
    }
    if trace_request == 0 {
        let b = kernel.task_manager.tasks[cur].memory_set.read_byte(id as u64);
        b as isize
    } else if trace_request == 1 {
        kernel.task_manager.tasks[cur].memory_set.write_byte(id as u64, data as u8);
        0
    } else {
        get_syscall_times(kernel, id)
    }
}

/// The map permission that `mmap` asks for with `prot`: user-accessible,
/// plus readable, writable and executable for bits 0, 1 and 2 of `prot`.
pub open spec fn mmap_perm(prot: usize) -> u8 {
    perm_from(prot & 1 != 0, prot & 2 != 0, prot & 4 != 0)
}

/// First page of the area `start..start + len` as the kernel sees it (the
/// address reduced to the SV39 range).
pub open spec fn area_first_page(start: usize) -> nat {
    page_floor((start as nat) % (VA_LIMIT as nat))
}

/// One past the last page of the area `start..start + len`.
pub open spec fn area_end_page(start: usize, len: usize) -> nat {
    page_ceil(((start + len) as nat) % (VA_LIMIT as nat))
}

/// Whether the arguments of `mmap` are refused before the address space is
/// looked at: a start that is not page aligned, or a `prot` outside `1..=7`.
pub open spec fn mmap_args_bad(start: usize, prot: usize) -> bool {
    start % (PAGE_SIZE as usize) != 0 || prot > 7 || prot == 0
}

/// An address below the SV39 limit has all its pages below the page limit.
proof fn lemma_page_ceil_in_range(a: nat)
    requires
        a < VA_LIMIT,
    ensures
        page_ceil(a) <= VPN_LIMIT,
{
    if a > 0 {
        vstd::arithmetic::div_mod::lemma_div_is_ordered((a - 1) as int, (VA_LIMIT - 1) as int, PAGE_SIZE as int);
    }
}

/// The end address of an area, computed with wrap-around in 64 bits, reduces
/// to the same SV39 address as the exact sum.
proof fn lemma_wrapped_end(x: u64, y: u64)
    ensures
        (x.wrapping_add(y) as nat) % (VA_LIMIT as nat) == ((x + y) as nat) % (VA_LIMIT as nat),
{
    if x + y > u64::MAX {
        vstd::arithmetic::div_mod::lemma_mod_multiples_vanish(-0x200_0000, x + y, VA_LIMIT as int);
        assert(VA_LIMIT as int * -0x200_0000 + (x + y) == x.wrapping_add(y) as int);
    }
}

/// Reducing an address to the SV39 range keeps its offset in the page, and
/// bit 11 of a page-aligned address is clear.
proof fn lemma_alignment_bits(x: u64)
    ensures
        (x % 0x80_0000_0000) % 0x1000 == x % 0x1000,
        x & 0x800 != 0 ==> x % 0x1000 != 0,
{
    assert((x % 0x80_0000_0000) % 0x1000 == x % 0x1000) by (bit_vector);
    assert(x & 0x800 != 0 ==> x % 0x1000 != 0) by (bit_vector);
}

/// The end of the area `start + len` is taken with 64-bit wrap-around, as
/// the kernel's unchecked addition does, and reduced to the SV39 range.
///
/// Maps `len` bytes from the page-aligned user address `start` with the
/// permission `prot` asks for (bit 0 read, bit 1 write, bit 2 execute) onto
/// fresh zero-filled frames, and returns 0. Returns -1 and changes nothing
/// when `start` is not page aligned, `prot` is not in `1..=7`, or a page of
/// the area is already mapped.
pub fn sys_mmap(kernel: &mut Kernel, start: usize, len: usize, prot: usize) -> (r: isize)
    requires
        old(kernel).wf(),
        old(kernel).task_manager.num_app > 0,
        !mmap_args_bad(start, prot) ==> area_first_page(start) <= area_end_page(start, len),
    ensures
        kernel_step(*old(kernel), *final(kernel), None),
        tasks_kept(*old(kernel), *final(kernel)),
        final(kernel).wf(),
        final(kernel).switch_time == old(kernel).switch_time,
        final(kernel).tmp_time == old(kernel).tmp_time,
        final(kernel).task_manager.same_but_current(old(kernel).task_manager),
        final(kernel).task_manager.cur().same_but_memory(old(kernel).task_manager.cur()),
        r == 0 || r == -1,
        r == 0 ==> 1 <= prot <= 7 && start % (PAGE_SIZE as usize) == 0,
        prot > 7 || prot == 0 || start % (PAGE_SIZE as usize) != 0 ==> {
            &&& r == -1
            &&& final(kernel).task_manager.cur().memory_set@ == old(kernel).task_manager.cur().memory_set@
            &&& final(kernel).task_manager.cur().memory_set.app_pages()
                == old(kernel).task_manager.cur().memory_set.app_pages()
        },
        ({
            let ms = old(kernel).task_manager.cur().memory_set;
            let ms1 = final(kernel).task_manager.cur().memory_set;
            if mmap_args_bad(start, prot) || !range_none_mapped(
                ms@,
                area_first_page(start),
                area_end_page(start, len),
            ) {
                &&& r == -1
                &&& ms1@ == ms@
                &&& ms1.app_pages() == ms.app_pages()
            } else {
                &&& r == 0
                &&& area_inserted(
                    ms,
                    ms1,
                    area_first_page(start),
                    area_end_page(start, len),
                    mmap_perm(prot) | PTE_V,
                )
            }
        }),
{
    proof {
        lemma_alignment_bits(start as u64);
    }
    // A first cheap test of one in-page bit; the full alignment test follows.
    if start & 0x800 != 0 || prot > 7 || prot == 0 {
        assert((start as u64) & 0x800 == start & 0x800) by (bit_vector);
        return -1;
    }
    let cur = kernel.task_manager.current_task;
    let mut map_permissions = MAP_PERM_U;
    if prot & 1 != 0 {
        map_permissions = map_permissions | MAP_PERM_R;
    }
    if prot & 2 != 0 {
        map_permissions = map_permissions | MAP_PERM_W;
    }
    if prot & 4 != 0 {
        map_permissions = map_permissions | MAP_PERM_X;
    }
    let start_va = VirtAddr::from_u64(start as u64);
    if start_va.page_offset() != 0 {
        assert(start % (PAGE_SIZE as usize) != 0);
        return -1;
    }
    let end_va = VirtAddr::from_u64((start as u64).wrapping_add(len as u64));
    proof {
        lemma_wrapped_end(start as u64, len as u64);
    }
    let first = start_va.floor();
    let end = end_va.ceil();
    proof {
        lemma_page_ceil_in_range(end_va.0 as nat);
    }
    let mut vpn = first;
    while vpn < end
        invariant
            kernel.wf(),
            kernel.task_manager.num_app > 0,
            cur == kernel.task_manager.current_task,
            first <= vpn <= end,
            first as nat == area_first_page(start),
            end as nat == area_end_page(start, len),
            !mmap_args_bad(start, prot),
            range_none_mapped(kernel.task_manager.cur().memory_set@, first as nat, vpn as nat),
            *kernel == *old(kernel),
        decreases end - vpn,
    {
        if let Some(pte) = kernel.task_manager.tasks[cur].memory_set.translate(vpn) {
            if pte.is_valid() {
                assert(kernel.task_manager.cur().memory_set@.contains_key(vpn));
                return -1;
            }
        }
        assert(!kernel.task_manager.cur().memory_set@.contains_key(vpn));
        vpn = vpn + 1;
    }
    insert_framed_area(kernel, start_va, end_va, map_permissions);
    0
}

/// Unmaps `len` bytes from the page-aligned user address `start` and
/// returns 0. Returns -1 and changes nothing when `start` is not page
/// aligned or some page of the area was not mapped by the program itself
/// through `mmap` (pages the kernel set up, such as the program's own
/// image, its stack or its heap, are refused). The end of the area is
/// taken as in `sys_mmap`.
pub fn sys_munmap(kernel: &mut Kernel, start: usize, len: usize) -> (r: isize)
    requires
        old(kernel).wf(),
        old(kernel).task_manager.num_app > 0,
        start % (PAGE_SIZE as usize) == 0 ==> area_first_page(start) <= area_end_page(start, len),
    ensures
        kernel_step(*old(kernel), *final(kernel), None),
        tasks_kept(*old(kernel), *final(kernel)),
        final(kernel).wf(),
        final(kernel).switch_time == old(kernel).switch_time,
        final(kernel).tmp_time == old(kernel).tmp_time,
        final(kernel).task_manager.same_but_current(old(kernel).task_manager),
        final(kernel).task_manager.cur().same_but_memory(old(kernel).task_manager.cur()),
        ({
            let ms = old(kernel).task_manager.cur().memory_set;
            let ms1 = final(kernel).task_manager.cur().memory_set;
            if start % (PAGE_SIZE as usize) != 0 || !range_within(
                ms.app_pages(),
                area_first_page(start),
                area_end_page(start, len),
            ) {
                &&& r == -1
                &&& ms1@ == ms@
                &&& ms1.app_pages() == ms.app_pages()
            } else {
                &&& r == 0
                &&& ms1@ == range_unmapped(ms@, area_first_page(start), area_end_page(start, len))
                &&& ms1.app_pages() == ms.app_pages().difference(
                    page_range(area_first_page(start), area_end_page(start, len)),
                )
            }
        }),
{
    proof {
        lemma_alignment_bits(start as u64);
    }
    // A first cheap test of one in-page bit; the full alignment test follows.
    if start & 0x800 != 0 {
        assert((start as u64) & 0x800 == start & 0x800) by (bit_vector);
        return -1;
    }
    let start_va = VirtAddr::from_u64(start as u64);
    let end_va = VirtAddr::from_u64((start as u64).wrapping_add(len as u64));
    proof {
        lemma_wrapped_end(start as u64, len as u64);
    }
    if start_va.page_offset() != 0 {
        return -1;
    }
    if unmap_framed_area(kernel, start_va, end_va) {
        0
    } else {
        -1
    }
}

/// Moves the current task's program break by `size` bytes and returns the
/// old break, or -1 when the new break would fall below the heap bottom
/// (then nothing changes). Growing maps the new heap pages readable,
/// writable and user-accessible; shrinking unmaps the pages that leave
/// the heap.
pub fn sys_sbrk(kernel: &mut Kernel, size: i32) -> (r: isize)
    requires
        old(kernel).wf(),
        old(kernel).task_manager.num_app > 0,
        old(kernel).task_manager.cur().brk_change_is_sound(size),
    ensures
        kernel_step(*old(kernel), *final(kernel), None),
        tasks_kept(*old(kernel), *final(kernel)),
        final(kernel).wf(),
        final(kernel).switch_time == old(kernel).switch_time,
        final(kernel).tmp_time == old(kernel).tmp_time,
        final(kernel).task_manager.same_but_current(old(kernel).task_manager),
        ({
            let t0 = old(kernel).task_manager.cur();
            let t1 = final(kernel).task_manager.cur();
            let res = if crate::task::control_block::moved_brk(t0.program_brk, size) < t0.heap_bottom {
                None
            } else {
                Some(t0.program_brk)
            };
            &&& brk_changed(t0, t1, size, res)
            &&& r == (match res {
                Some(b) => b as isize,
                None => -1isize,
            })
        }),
{
    if let Some(old_brk) = change_program_brk(kernel, size) {
        old_brk as isize
    } else {
        -1
    }
}

/// Unmapping an area that `mmap` has just mapped succeeds and gives back
/// the address space as it was before the `mmap`; the area is then free for
/// `mmap` again. `ms1` is what the `mmap` left, `ms2` what the `munmap`
/// leaves when it succeeds.
pub proof fn lemma_munmap_undoes_mmap(
    ms0: MemorySet,
    ms1: MemorySet,
    ms2: MemorySet,
    start: usize,
    len: usize,
    prot: usize,
)
    requires
        ms0.wf(),
        !mmap_args_bad(start, prot),
        range_none_mapped(ms0@, area_first_page(start), area_end_page(start, len)),
        area_inserted(ms0, ms1, area_first_page(start), area_end_page(start, len), mmap_perm(prot) | PTE_V),
        ms2@ == range_unmapped(ms1@, area_first_page(start), area_end_page(start, len)),
        ms2.app_pages() == ms1.app_pages().difference(
            page_range(area_first_page(start), area_end_page(start, len)),
        ),
    ensures
        start % (PAGE_SIZE as usize) == 0,
        range_within(ms1.app_pages(), area_first_page(start), area_end_page(start, len)),
        ms2@ == ms0@,
        ms2.app_pages() == ms0.app_pages(),
        range_none_mapped(ms2@, area_first_page(start), area_end_page(start, len)),
{
    let f = area_first_page(start);
    let e = area_end_page(start, len);
    assert(ms2@ =~= ms0@);
    assert forall|k: u64| ms2.app_pages().contains(k) <==> ms0.app_pages().contains(k) by {
        if ms0.app_pages().contains(k) {
            assert(ms0@.contains_key(k));
        }
    }
    assert(ms2.app_pages() =~= ms0.app_pages());
}

/// A second `munmap` of an area that `munmap` has just unmapped is refused
/// when the area holds a page.
pub proof fn lemma_munmap_twice_refused(ms1: MemorySet, ms2: MemorySet, start: usize, len: usize)
    requires
        area_first_page(start) < area_end_page(start, len),
        ms2.app_pages() == ms1.app_pages().difference(
            page_range(area_first_page(start), area_end_page(start, len)),
        ),
    ensures
        !range_within(ms2.app_pages(), area_first_page(start), area_end_page(start, len)),
{
    let f = area_first_page(start);
    lemma_page_ceil_in_range(((start + len) as nat) % (VA_LIMIT as nat));
    assert(!ms2.app_pages().contains(f as u64));
}

/// After `mmap` has mapped an area, every `mmap` whose area shares a page
/// with it is refused, whatever its permission.
pub proof fn lemma_mmap_overlap_refused(
    ms0: MemorySet,
    ms1: MemorySet,
    start: usize,
    len: usize,
    flags: u8,
    start2: usize,
    len2: usize,
)
    requires
        area_inserted(ms0, ms1, area_first_page(start), area_end_page(start, len), flags),
        area_first_page(start) < area_end_page(start, len),
        area_first_page(start) < area_end_page(start2, len2),
        area_first_page(start2) < area_end_page(start, len),
        area_first_page(start2) < area_end_page(start2, len2),
    ensures
        !range_none_mapped(ms1@, area_first_page(start2), area_end_page(start2, len2)),
{
    let f = area_first_page(start);
    let f2 = area_first_page(start2);
    lemma_page_ceil_in_range(((start + len) as nat) % (VA_LIMIT as nat));
    let k: nat = if f < f2 { f2 } else { f };
    assert(f <= k < area_end_page(start, len));
    assert(area_end_page(start, len) <= VPN_LIMIT);
    assert((k as u64) as nat == k);
    assert(range_mapped(ms0@, f, area_end_page(start, len), flags).contains_key(k as u64));
    assert(ms1@.contains_key(k as u64));
}

/// After `mmap` and then `munmap` of an area that ends below the SV39
/// limit, `trace` can neither read nor write any address of the area.
pub proof fn lemma_trace_refused_after_munmap(m2: SpaceView, start: usize, len: usize, a: usize)
    requires
        start % (PAGE_SIZE as usize) == 0,
        range_none_mapped(m2, area_first_page(start), area_end_page(start, len)),
        start + len < VA_LIMIT,
        start <= a < start + len,
    ensures
        !trace_permitted(m2, 0, a),
        !trace_permitted(m2, 1, a),
{
    let p = PAGE_SIZE as nat;
    vstd::arithmetic::div_mod::lemma_small_mod(start as nat, VA_LIMIT as nat);
    vstd::arithmetic::div_mod::lemma_small_mod((start + len) as nat, VA_LIMIT as nat);
    vstd::arithmetic::div_mod::lemma_div_is_ordered(start as int, a as int, p as int);
    vstd::arithmetic::div_mod::lemma_div_is_ordered(a as int, (start + len - 1) as int, p as int);
    let vpn = a as nat / p;
    assert(area_first_page(start) <= vpn < area_end_page(start, len));
    assert(!m2.contains_key(vpn as u64));
}

/// The map permission built from the three access bits, as `mmap` builds
/// it.
pub open spec fn perm_from(r: bool, w: bool, x: bool) -> u8 {
    let p0 = MAP_PERM_U;
    let p1 = if r {
        p0 | MAP_PERM_R
    } else {
        p0
    };
    let p2 = if w {
        p1 | MAP_PERM_W
    } else {
        p1
    };
    if x {
        p2 | MAP_PERM_X
    } else {
        p2
    }
}

proof fn lemma_perm_from_bits(r: bool, w: bool, x: bool)
    by (bit_vector)
    ensures
        ((perm_from(r, w, x) | PTE_V) & PTE_R != 0) == r,
        ((perm_from(r, w, x) | PTE_V) & PTE_W != 0) == w,
        ((perm_from(r, w, x) | PTE_V) & crate::mm::PTE_X != 0) == x,
        (perm_from(r, w, x) | PTE_V) & PTE_U != 0,
{
}

/// The page-table flags that `mmap` gives a page allow exactly what `prot`
/// asks for: reading with bit 0, writing with bit 1, executing with bit 2,
/// and always user access.
pub proof fn lemma_mmap_perm_bits(prot: usize)
    ensures
        ((mmap_perm(prot) | PTE_V) & PTE_R != 0) == (prot & 1 != 0),
        ((mmap_perm(prot) | PTE_V) & PTE_W != 0) == (prot & 2 != 0),
        ((mmap_perm(prot) | PTE_V) & crate::mm::PTE_X != 0) == (prot & 4 != 0),
        (mmap_perm(prot) | PTE_V) & PTE_U != 0,
{
    lemma_perm_from_bits(prot & 1 != 0, prot & 2 != 0, prot & 4 != 0);
}

/// After a successful `mmap` of an area that ends below the SV39 limit, every user
/// address of the area reads as zero through `trace`, and `trace` may read
/// or write it exactly as `prot` allows.
pub proof fn lemma_mmap_area_access(m: SpaceView, start: usize, len: usize, prot: usize, id: usize)
    requires
        !mmap_args_bad(start, prot),
        range_none_mapped(m, area_first_page(start), area_end_page(start, len)),
        start + len < VA_LIMIT,
        start <= id < start + len,
        id <= MAX_USER_VA,
    ensures
        ({
            let m1 = range_mapped(
                m,
                area_first_page(start),
                area_end_page(start, len),
                mmap_perm(prot) | PTE_V,
            );
            &&& trace_permitted(m1, 0, id) == (prot & 1 != 0)
            &&& trace_permitted(m1, 1, id) == (prot & 2 != 0)
            &&& byte_at(m1, id as nat) == 0
        }),
{
    lemma_mmap_perm_bits(prot);
    let p = PAGE_SIZE as nat;
    vstd::arithmetic::div_mod::lemma_small_mod(start as nat, VA_LIMIT as nat);
    vstd::arithmetic::div_mod::lemma_small_mod((start + len) as nat, VA_LIMIT as nat);
    let vpn = id as nat / p;
    vstd::arithmetic::div_mod::lemma_div_is_ordered(start as int, id as int, p as int);
    vstd::arithmetic::div_mod::lemma_div_is_ordered(id as int, (start + len - 1) as int, p as int);
    vstd::arithmetic::div_mod::lemma_mod_bound(id as int, p as int);
    assert(area_first_page(start) <= vpn < area_end_page(start, len));
}

/// A byte that `trace` wrote is what `trace` reads back at that address,
/// and the write leaves `trace`'s permissions as they were.
pub proof fn lemma_trace_read_after_write(m: SpaceView, id: usize, data: usize)
    requires
        space_wf(m),
        trace_permitted(m, 1, id),
    ensures
        trace_permitted(with_byte(m, id as nat, data as u8), 0, id) == trace_permitted(m, 0, id),
        byte_at(with_byte(m, id as nat, data as u8), id as nat) == data as u8,
{
    let vpn = (id as nat / (PAGE_SIZE as nat)) as u64;
    crate::mm::lemma_byte_at_with_byte(m, id as nat, data as u8, id as nat);
    assert(with_byte(m, id as nat, data as u8)[vpn].0 == m[vpn].0);
}

/// After `get_time`, the bytes at the user address hold the time value:
/// byte `i` of the buffer is byte `i` of the `TimeVal`, and no other
/// address changed.
pub proof fn lemma_get_time_read_back(m: SpaceView, ts: usize, time_us: usize)
    requires
        space_wf(m),
        ts + TIME_VAL_SIZE <= VA_LIMIT,
        bytes_mapped(m, ts as nat, TIME_VAL_SIZE as nat),
    ensures
        ({
            let m1 = with_bytes(m, ts as nat, time_val_bytes(time_val_of(time_us)), TIME_VAL_SIZE as nat);
            &&& space_wf(m1)
            &&& m1.dom() == m.dom()
            &&& forall|i: nat|
                i < TIME_VAL_SIZE ==> #[trigger] byte_at(m1, (ts + i) as nat) == time_val_bytes(
                    time_val_of(time_us),
                )[i as int]
            &&& forall|x: nat|
                x < VA_LIMIT && m.contains_key((x / (PAGE_SIZE as nat)) as u64) && !(ts <= x < ts
                    + TIME_VAL_SIZE) ==> #[trigger] byte_at(m1, x) == byte_at(m, x)
        }),
{
    let tv = time_val_of(time_us);
    vstd::bytes::lemma_auto_spec_u64_to_from_le_bytes();
    assert(time_val_bytes(tv).len() == 16);
    crate::mm::lemma_with_bytes_read_back(m, ts as nat, time_val_bytes(tv), TIME_VAL_SIZE as nat);
}

/// After `sbrk(size)` has moved the break, `sbrk(0)` reports the new break:
/// the old one moved by `size`.
pub proof fn lemma_sbrk_reports_moved_break(
    t0: crate::task::control_block::TaskControlBlock,
    t1: crate::task::control_block::TaskControlBlock,
    t2: crate::task::control_block::TaskControlBlock,
    size: i32,
    r2: Option<u64>,
)
    requires
        brk_changed(t0, t1, size, Some(t0.program_brk)),
        crate::task::control_block::moved_brk(t0.program_brk, size) >= t0.heap_bottom,
        brk_changed(t1, t2, 0, r2),
        t1.heap_bottom <= t1.program_brk,
    ensures
        r2 == Some((t0.program_brk + size) as u64),
        t2.program_brk == t1.program_brk,
        t2.memory_set@ == t1.memory_set@,
{
    assert(range_mapped(t1.memory_set@, page_ceil(t1.program_brk as nat), page_ceil(t1.program_brk as nat), crate::task::control_block::heap_perm() | PTE_V) =~= t1.memory_set@);
}

/// Growing the heap by `size` bytes and then shrinking it by as much gives
/// back the break and the address space as they were.
pub proof fn lemma_sbrk_grow_then_shrink(
    t0: crate::task::control_block::TaskControlBlock,
    t1: crate::task::control_block::TaskControlBlock,
    t2: crate::task::control_block::TaskControlBlock,
    size: i32,
    r1: Option<u64>,
    r2: Option<u64>,
)
    requires
        t0.wf(),
        size > 0,
        t0.brk_change_is_sound(size),
        brk_changed(t0, t1, size, r1),
        brk_changed(t1, t2, -size as i32, r2),
    ensures
        r1 == Some(t0.program_brk),
        r2 == Some(t1.program_brk),
        t1.program_brk == t0.program_brk + size,
        t2.program_brk == t0.program_brk,
        t2.memory_set@ == t0.memory_set@,
        t2.memory_set.app_pages() == t0.memory_set.app_pages(),
{
    let lo = page_ceil(t0.program_brk as nat);
    let hi = page_ceil(crate::task::control_block::moved_brk(t0.program_brk, size) as nat);
    let m1 = range_mapped(t0.memory_set@, lo, hi, crate::task::control_block::heap_perm() | PTE_V);
    assert(range_unmapped(m1, lo, hi) =~= t0.memory_set@);
    assert forall|k: u64| t2.memory_set.app_pages().contains(k) <==> t0.memory_set.app_pages().contains(k) by {
        if t0.memory_set.app_pages().contains(k) {
            assert(t0.memory_set@.contains_key(k));
        }
    }
    assert(t2.memory_set.app_pages() =~= t0.memory_set.app_pages());
}

/// The `TimeVal` that `get_time` writes stands for exactly the clock
/// reading: whole seconds and the microseconds left over, fewer than a
/// million, which together make up the reading.
pub proof fn lemma_time_val_is_reading(time_us: usize)
    ensures
        time_val_of(time_us).usec < 1_000_000,
        time_val_of(time_us).sec * 1_000_000 + time_val_of(time_us).usec == time_us,
        time_val_of(time_us).sec <= time_us,
{
    vstd::arithmetic::div_mod::lemma_fundamental_div_mod(time_us as int, 1_000_000);
}

/// Two clock readings give `TimeVal`s in the same order: a later reading
/// never gives an earlier time.
pub proof fn lemma_time_val_monotonic(t1: usize, t2: usize)
    requires
        t1 <= t2,
    ensures
        time_val_of(t1).sec < time_val_of(t2).sec || (time_val_of(t1).sec == time_val_of(t2).sec
            && time_val_of(t1).usec <= time_val_of(t2).usec),
{
    lemma_time_val_is_reading(t1);
    lemma_time_val_is_reading(t2);
    let a = time_val_of(t1);
    let b = time_val_of(t2);
    if a.sec > b.sec {
        assert(a.sec * 1_000_000 >= (b.sec + 1) * 1_000_000) by (nonlinear_arith)
            requires
                a.sec >= b.sec + 1,
        ;
    }
}

/// `mmap` refuses, before it looks at the address space, every `prot`
/// outside `1..=7` and every start that is not page aligned; only such
/// refusals and overlaps make it fail.
pub proof fn lemma_mmap_refuses_bad_arguments(start: usize, prot: usize)
    ensures
        (prot > 7 || prot == 0 || start % 4096 != 0) <==> mmap_args_bad(start, prot),
{
}

} // verus!
