//! The system call interface: each call is admitted only when the caller's
//! node weighs at least the call's minimum, and its arguments are checked
//! before any work is done. Calls that touch the caller's memory come back
//! as a step for the trap handler to carry out, with the work on the copied
//! bytes done here.
use vstd::prelude::*;
use vstd::utf8::{valid_utf8, decode_utf8};
use crate::ts::{TsContext, enforce_min_weight, current_node_weight, current_weight, refused};
use crate::drivers::{DriverSet, DriverSlot, first_of_kind, is_fs, is_net, lemma_first_of_kind};

verus! {

pub const SYS_WRITE: u64 = 0;
pub const SYS_EXIT: u64 = 1;
pub const SYS_YIELD: u64 = 2;
pub const SYS_GET_NODE_WEIGHT: u64 = 3;
pub const SYS_DEBUG_HIERARCHY_DUMP: u64 = 4;
pub const SYS_FS_READ: u64 = 5;
pub const SYS_FS_WRITE: u64 = 6;
pub const SYS_FS_LIST: u64 = 7;
pub const SYS_NET_SEND: u64 = 8;
pub const SYS_NET_RECV: u64 = 9;

/// Least weights (in thousandths) of the calls.
pub const MIN_WEIGHT_WRITE: u32 = 300;
pub const MIN_WEIGHT_EXIT_YIELD: u32 = 300;
pub const MIN_WEIGHT_GET_NODE_WEIGHT: u32 = 300;
pub const MIN_WEIGHT_DEBUG_DUMP: u32 = 600;
pub const MIN_WEIGHT_FS_READ_LIST: u32 = 500;
pub const MIN_WEIGHT_FS_WRITE: u32 = 600;
pub const MIN_WEIGHT_NET_SEND: u32 = 700;
pub const MIN_WEIGHT_NET_RECV: u32 = 650;

/// Most bytes one `SYS_WRITE` may print.
pub const MAX_WRITE_LEN: u64 = 2048;
/// Longest file name, in bytes.
pub const MAX_FS_FILENAME_LEN: u64 = 256;
/// Most bytes one file call may move.
pub const MAX_FS_DATA_LEN: u64 = 64 * 1024;
/// Longest packet, in bytes.
pub const MAX_NET_PACKET_LEN: u64 = 2048;

/// The value a call returns on error.
pub const SYSCALL_ERROR: u64 = 0xffff_ffff_ffff_ffff;

/// What is left of a call once it has been admitted and its arguments
/// checked.
#[derive(PartialEq, Eq, Structural, Debug)]
pub enum SyscallStep {
    /// Finished: return this value.
    Done(u64),
    /// Print the `len` bytes at `ptr`; return `len`.
    Write { ptr: u64, len: u64 },
    /// Report the exit; return 0.
    Exit,
    /// Return this weight (in thousandths) as the bits of an `f32` in [0, 1].
    NodeWeight(u32),
    /// Print the hierarchy dump; return 0.
    HierarchyDump,
    /// Read the file named by the `name_len` bytes at `name_ptr` into the
    /// `buf_len` bytes at `buf_ptr` (see `sys_fs_read`).
    FsRead { name_ptr: u64, name_len: u64, buf_ptr: u64, buf_len: u64 },
    /// Write the `data_len` bytes at `data_ptr` to the file named by the
    /// `name_len` bytes at `name_ptr` (see `sys_fs_write`).
    FsWrite { name_ptr: u64, name_len: u64, data_ptr: u64, data_len: u64 },
    /// Send the `len` bytes at `ptr` (see `sys_net_send`).
    NetSend { ptr: u64, len: u64 },
    /// Receive a packet into the `len` bytes at `ptr` (see `sys_net_recv`).
    NetRecv { ptr: u64, len: u64 },
    /// No such call: report it; return the error value.
    Unknown(u64),
}

/// Least weight of call `num` (known calls only).
pub open spec fn syscall_min_weight(num: u64) -> u32 {
    if num == SYS_WRITE {
        MIN_WEIGHT_WRITE
    } else if num == SYS_EXIT || num == SYS_YIELD {
        MIN_WEIGHT_EXIT_YIELD
    } else if num == SYS_GET_NODE_WEIGHT {
        MIN_WEIGHT_GET_NODE_WEIGHT
    } else if num == SYS_DEBUG_HIERARCHY_DUMP {
        MIN_WEIGHT_DEBUG_DUMP
    } else if num == SYS_FS_READ || num == SYS_FS_LIST {
        MIN_WEIGHT_FS_READ_LIST
    } else if num == SYS_FS_WRITE {
        MIN_WEIGHT_FS_WRITE
    } else if num == SYS_NET_SEND {
        MIN_WEIGHT_NET_SEND
    } else {
        MIN_WEIGHT_NET_RECV
    }
}

/// Name under which a refusal of call `num` is recorded (known calls only).
pub open spec fn syscall_op(num: u64) -> Seq<char> {
    if num == SYS_WRITE {
        "sys_write"@
    } else if num == SYS_EXIT {
        "sys_exit"@
    } else if num == SYS_YIELD {
        "sys_yield"@
    } else if num == SYS_GET_NODE_WEIGHT {
        "sys_get_node_weight"@
    } else if num == SYS_DEBUG_HIERARCHY_DUMP {
        "sys_debug_hierarchy_dump"@
    } else if num == SYS_FS_READ {
        "sys_fs_read"@
    } else if num == SYS_FS_WRITE {
        "sys_fs_write"@
    } else if num == SYS_FS_LIST {
        "sys_fs_list"@
    } else if num == SYS_NET_SEND {
        "sys_net_send"@
    } else {
        "sys_net_recv"@
    }
}

/// Number of files of the first filesystem driver, if there is one.
pub open spec fn fs_file_count(slots: Seq<DriverSlot>) -> Option<nat> {
    let i = first_of_kind(slots, |d: DriverSlot| is_fs(d));
    if i < slots.len() {
        match slots[i] {
            DriverSlot::Fs(f) => Some(f.disk().names().len()),
            _ => None,
        }
    } else {
        None
    }
}

/// The step of an admitted call, from its arguments, the caller's weight
/// and the file count of the filesystem.
pub open spec fn admitted_step(num: u64, a: u64, b: u64, c: u64, d: u64, weight: u32, files: Option<nat>) -> SyscallStep {
    if num == SYS_WRITE {
        if b > MAX_WRITE_LEN {
            SyscallStep::Done(SYSCALL_ERROR)
        } else if b == 0 {
            SyscallStep::Done(0)
        } else {
            SyscallStep::Write { ptr: a, len: b }
        }
    } else if num == SYS_EXIT {
        SyscallStep::Exit
    } else if num == SYS_YIELD {
        SyscallStep::Done(0)
    } else if num == SYS_GET_NODE_WEIGHT {
        SyscallStep::NodeWeight(weight)
    } else if num == SYS_DEBUG_HIERARCHY_DUMP {
        SyscallStep::HierarchyDump
    } else if num == SYS_FS_READ {
        if b > MAX_FS_FILENAME_LEN || d > MAX_FS_DATA_LEN || b == 0 {
            SyscallStep::Done(SYSCALL_ERROR)
        } else {
            SyscallStep::FsRead { name_ptr: a, name_len: b, buf_ptr: c, buf_len: d }
        }
    } else if num == SYS_FS_WRITE {
        if b > MAX_FS_FILENAME_LEN || d > MAX_FS_DATA_LEN || b == 0 {
            SyscallStep::Done(SYSCALL_ERROR)
        } else {
            SyscallStep::FsWrite { name_ptr: a, name_len: b, data_ptr: c, data_len: d }
        }
    } else if num == SYS_FS_LIST {
        match files {
            Some(n) => SyscallStep::Done(n as u64),
            None => SyscallStep::Done(SYSCALL_ERROR),
        }
    } else if num == SYS_NET_SEND {
        if b > MAX_NET_PACKET_LEN {
            SyscallStep::Done(SYSCALL_ERROR)
        } else if b == 0 {
            SyscallStep::Done(0)
        } else {
            SyscallStep::NetSend { ptr: a, len: b }
        }
    } else {
        if b > MAX_NET_PACKET_LEN {
            SyscallStep::Done(SYSCALL_ERROR)
        } else {
            SyscallStep::NetRecv { ptr: a, len: b }
        }
    }
}

/// Entry of every system call (number `num`, arguments `a` to `d`): unknown
/// calls are reported; a caller lighter than the call's minimum weight is
/// refused with the error value (the refusal is recorded); otherwise the
/// arguments are checked and the call is carried out as far as it needs no
/// access to the caller's memory.
pub fn dispatch(ctx: &mut TsContext, drivers: &mut DriverSet, num: u64, a: u64, b: u64, c: u64, d: u64) -> (r: SyscallStep)
    ensures
        num > SYS_NET_RECV ==> r == SyscallStep::Unknown(num) && *final(ctx) == *old(ctx),
        num <= SYS_NET_RECV && current_weight(*old(ctx)) < syscall_min_weight(num) ==> {
            &&& r == SyscallStep::Done(SYSCALL_ERROR)
            &&& refused(*old(ctx), *final(ctx), syscall_op(num), syscall_min_weight(num))
        },
        num <= SYS_NET_RECV && current_weight(*old(ctx)) >= syscall_min_weight(num) ==> {
            &&& r == admitted_step(num, a, b, c, d, current_weight(*old(ctx)), fs_file_count(old(drivers).slots()))
            &&& final(ctx).violations == old(ctx).violations
        },
        final(ctx).registry == old(ctx).registry,
        final(ctx).current == old(ctx).current,
        final(drivers).slots() == old(drivers).slots(),
{
    if num > SYS_NET_RECV {
        return SyscallStep::Unknown(num);
    }
    let (op, min) = if num == SYS_WRITE {
        ("sys_write", MIN_WEIGHT_WRITE)
    } else if num == SYS_EXIT {
        ("sys_exit", MIN_WEIGHT_EXIT_YIELD)
    } else if num == SYS_YIELD {
        ("sys_yield", MIN_WEIGHT_EXIT_YIELD)
    } else if num == SYS_GET_NODE_WEIGHT {
        ("sys_get_node_weight", MIN_WEIGHT_GET_NODE_WEIGHT)
    } else if num == SYS_DEBUG_HIERARCHY_DUMP {
        ("sys_debug_hierarchy_dump", MIN_WEIGHT_DEBUG_DUMP)
    } else if num == SYS_FS_READ {
        ("sys_fs_read", MIN_WEIGHT_FS_READ_LIST)
    } else if num == SYS_FS_WRITE {
        ("sys_fs_write", MIN_WEIGHT_FS_WRITE)
    } else if num == SYS_FS_LIST {
        ("sys_fs_list", MIN_WEIGHT_FS_READ_LIST)
    } else if num == SYS_NET_SEND {
        ("sys_net_send", MIN_WEIGHT_NET_SEND)
    } else {
        ("sys_net_recv", MIN_WEIGHT_NET_RECV)
    };
    let weight = current_node_weight(ctx);
    if enforce_min_weight(ctx, op, min).is_err() {
        return SyscallStep::Done(SYSCALL_ERROR);
    }
    if num == SYS_WRITE {
        if b > MAX_WRITE_LEN {
            SyscallStep::Done(SYSCALL_ERROR)
        } else if b == 0 {
            SyscallStep::Done(0)
        } else {
            SyscallStep::Write { ptr: a, len: b }
        }
    } else if num == SYS_EXIT {
        SyscallStep::Exit
    } else if num == SYS_YIELD {
        SyscallStep::Done(0)
    } else if num == SYS_GET_NODE_WEIGHT {
        SyscallStep::NodeWeight(weight)
    } else if num == SYS_DEBUG_HIERARCHY_DUMP {
        SyscallStep::HierarchyDump
    } else if num == SYS_FS_READ {
        if b > MAX_FS_FILENAME_LEN || d > MAX_FS_DATA_LEN || b == 0 {
            SyscallStep::Done(SYSCALL_ERROR)
        } else {
            SyscallStep::FsRead { name_ptr: a, name_len: b, buf_ptr: c, buf_len: d }
        }
    } else if num == SYS_FS_WRITE {
        if b > MAX_FS_FILENAME_LEN || d > MAX_FS_DATA_LEN || b == 0 {
            SyscallStep::Done(SYSCALL_ERROR)
        } else {
            SyscallStep::FsWrite { name_ptr: a, name_len: b, data_ptr: c, data_len: d }
        }
    } else if num == SYS_FS_LIST {
        SyscallStep::Done(sys_fs_list(ctx, drivers))
    } else if num == SYS_NET_SEND {
        if b > MAX_NET_PACKET_LEN {
            SyscallStep::Done(SYSCALL_ERROR)
        } else if b == 0 {
            SyscallStep::Done(0)
        } else {
            SyscallStep::NetSend { ptr: a, len: b }
        }
    } else {
        if b > MAX_NET_PACKET_LEN {
            SyscallStep::Done(SYSCALL_ERROR)
        } else {
            SyscallStep::NetRecv { ptr: a, len: b }
        }
    }
}

/// Number of files, or the error value without a filesystem driver.
fn sys_fs_list(ctx: &mut TsContext, drivers: &mut DriverSet) -> (r: u64)
    requires
        current_weight(*old(ctx)) >= MIN_WEIGHT_FS_READ_LIST,
    ensures
        r == (match fs_file_count(old(drivers).slots()) {
            Some(n) => n as u64,
            None => SYSCALL_ERROR,
        }),
        *final(ctx) == *old(ctx),
        final(drivers).slots() == old(drivers).slots(),
{
    proof {
        lemma_first_of_kind(drivers.slots(), |d: DriverSlot| is_fs(d));
    }
    let ghost s0 = drivers.slots();
    let ghost i = first_of_kind(s0, |d: DriverSlot| is_fs(d));
    let r = drivers.fs_driver();
    let n = match r {
        Some(fs) => {
            let names = fs.list_files(ctx);
            proof {
                assert(names@.len() == crate::ts::strings_view(names@).len());
            }
            names.len() as u64
        },
        None => SYSCALL_ERROR,
    };
    proof {
        if i < s0.len() {
            assert(drivers.slots() =~= s0);
        }
    }
    n
}

} // verus!

verus! {

/// `core::str::from_utf8`: the bytes as a string when they are valid UTF-8.
#[verifier::external_body]
fn str_from_utf8(v: &[u8]) -> (r: Option<&str>)
    ensures
        r is Some <==> valid_utf8(v@),
        r matches Some(s) ==> s@ == decode_utf8(v@),
{
    core::str::from_utf8(v).ok()
}

/// The file name that `name` spells: its UTF-8 text, or the empty name when
/// it is not valid UTF-8.
pub open spec fn file_name(name: Seq<u8>) -> Seq<char> {
    if valid_utf8(name) {
        decode_utf8(name)
    } else {
        Seq::empty()
    }
}

pub(crate) fn name_str(name: &[u8]) -> (s: &str)
    ensures
        s@ == file_name(name@),
{
    match str_from_utf8(name) {
        Some(s) => s,
        None => {
            proof {
                reveal_strlit("");
            }
            ""
        },
    }
}

/// The first `n` bytes of `v` (all of `v` when it is shorter).
fn prefix(v: &Vec<u8>, n: u64) -> (r: Vec<u8>)
    ensures
        r@ == v@.take(if v@.len() < n { v@.len() as int } else { n as int }),
{
    let len: usize = if (v.len() as u64) < n {
        v.len()
    } else {
        n as usize
    };
    let mut out: Vec<u8> = Vec::new();
    let mut k: usize = 0;
    while k < len
        invariant
            0 <= k <= len,
            len <= v@.len(),
            out@ == v@.take(k as int),
        decreases len - k,
    {
        out.push(v[k]);
        proof {
            assert(out@ =~= v@.take(k + 1));
        }
        k = k + 1;
    }
    out
}

/// A file name of 1 to `MAX_FS_FILENAME_LEN` bytes and a buffer or data of
/// at most `MAX_FS_DATA_LEN` bytes.
pub open spec fn fs_args_ok(name_len: nat, len: u64) -> bool {
    0 < name_len <= MAX_FS_FILENAME_LEN && len <= MAX_FS_DATA_LEN
}

/// The shorter of `len` and `cap`.
pub open spec fn capped(len: nat, cap: u64) -> int {
    if len < cap {
        len as int
    } else {
        cap as int
    }
}

/// Second half of `SYS_FS_READ`, on the file name copied from the caller:
/// `None` (answered with the error value) for an empty name or one longer
/// than `MAX_FS_FILENAME_LEN`, or a buffer longer than `MAX_FS_DATA_LEN`; else
/// the file's first `buf_len` bytes (all of them when it is shorter), to be
/// copied back to the caller; `None` (answered with the error value) without
/// a filesystem driver, when the read is refused, or when there is no such
/// file.
pub fn sys_fs_read(ctx: &mut TsContext, drivers: &mut DriverSet, name: &[u8], buf_len: u64) -> (r: Option<Vec<u8>>)
    ensures
        !fs_args_ok(name@.len(), buf_len) ==> r is None && *final(ctx) == *old(ctx),
        fs_args_ok(name@.len(), buf_len) ==> ({
            let s = old(drivers).slots();
            let i = first_of_kind(s, |d: DriverSlot| is_fs(d));
            &&& i == s.len() ==> r is None
            &&& i < s.len() ==> (s[i] matches DriverSlot::Fs(f) && {
                &&& r is Some <==> current_weight(*old(ctx)) >= crate::fs::MIN_WEIGHT_FS_READ && f.disk().files().dom().contains(file_name(name@))
                &&& r matches Some(v) ==> v@ == f.disk().files()[file_name(name@)].take(capped(f.disk().files()[file_name(name@)].len(), buf_len))
            })
        }),
        final(drivers).slots() == old(drivers).slots(),
        final(ctx).registry == old(ctx).registry,
        final(ctx).current == old(ctx).current,
        current_weight(*old(ctx)) >= crate::fs::MIN_WEIGHT_FS_READ ==> final(ctx).violations == old(ctx).violations,
        first_of_kind(old(drivers).slots(), |d: DriverSlot| is_fs(d)) == old(drivers).slots().len() ==> *final(ctx) == *old(ctx),
        fs_args_ok(name@.len(), buf_len) && first_of_kind(old(drivers).slots(), |d: DriverSlot| is_fs(d)) < old(drivers).slots().len()
            && current_weight(*old(ctx)) < crate::fs::MIN_WEIGHT_FS_READ ==> refused(*old(ctx), *final(ctx), "fs read"@, crate::fs::MIN_WEIGHT_FS_READ),
{
    if name.len() == 0 || name.len() as u64 > MAX_FS_FILENAME_LEN || buf_len > MAX_FS_DATA_LEN {
        return None;
    }
    proof {
        lemma_first_of_kind(drivers.slots(), |d: DriverSlot| is_fs(d));
    }
    let ghost s0 = drivers.slots();
    let ghost i = first_of_kind(s0, |d: DriverSlot| is_fs(d));
    let filename = name_str(name);
    let r = drivers.fs_driver();
    let out = match r {
        Some(fs) => match fs.read_file(ctx, filename) {
            Some(data) => Some(prefix(&data, buf_len)),
            None => None,
        },
        None => None,
    };
    proof {
        if i < s0.len() {
            assert(drivers.slots() =~= s0);
        }
    }
    out
}

/// Second half of `SYS_FS_WRITE`, on the name and data copied from the
/// caller: the error value for a name or data outside the limits of
/// `SYS_FS_READ`; else the number of bytes written, or the error value without a
/// filesystem driver or when the write is refused.
pub fn sys_fs_write(ctx: &mut TsContext, drivers: &mut DriverSet, name: &[u8], data: &[u8]) -> (r: u64)
    ensures
        !fs_args_ok(name@.len(), data@.len() as u64) ==> r == SYSCALL_ERROR && final(drivers).slots() == old(drivers).slots() && *final(ctx) == *old(ctx),
        fs_args_ok(name@.len(), data@.len() as u64) ==> ({
            let s = old(drivers).slots();
            let i = first_of_kind(s, |d: DriverSlot| is_fs(d));
            &&& i == s.len() ==> r == SYSCALL_ERROR && final(drivers).slots() == s
            &&& i < s.len() ==> (s[i] matches DriverSlot::Fs(f) && {
                let ok = current_weight(*old(ctx)) >= crate::fs::MIN_WEIGHT_FS_WRITE && f.disk().used() + data@.len() <= f.disk().capacity();
                &&& ok ==> r == data@.len() && final(drivers).slots().len() == s.len() && (final(drivers).slots()[i] matches DriverSlot::Fs(g) && {
                    &&& g.disk().files() == f.disk().files().insert(file_name(name@), data@)
                    &&& g.disk().used() == f.disk().used() + data@.len()
                    &&& g.disk().capacity() == f.disk().capacity()
                }) && (forall|j: int| 0 <= j < s.len() && j != i ==> #[trigger] final(drivers).slots()[j] == s[j])
                &&& !ok ==> r == SYSCALL_ERROR && final(drivers).slots() == s
            })
        }),
        final(ctx).registry == old(ctx).registry,
        final(ctx).current == old(ctx).current,
        current_weight(*old(ctx)) >= crate::fs::MIN_WEIGHT_FS_WRITE ==> final(ctx).violations == old(ctx).violations,
        first_of_kind(old(drivers).slots(), |d: DriverSlot| is_fs(d)) == old(drivers).slots().len() ==> *final(ctx) == *old(ctx),
        fs_args_ok(name@.len(), data@.len() as u64) && first_of_kind(old(drivers).slots(), |d: DriverSlot| is_fs(d)) < old(drivers).slots().len()
            && current_weight(*old(ctx)) < crate::fs::MIN_WEIGHT_FS_WRITE ==> refused(*old(ctx), *final(ctx), "fs write"@, crate::fs::MIN_WEIGHT_FS_WRITE),
{
    if name.len() == 0 || name.len() as u64 > MAX_FS_FILENAME_LEN || data.len() as u64 > MAX_FS_DATA_LEN {
        return SYSCALL_ERROR;
    }
    proof {
        lemma_first_of_kind(drivers.slots(), |d: DriverSlot| is_fs(d));
    }
    let ghost s0 = drivers.slots();
    let ghost i = first_of_kind(s0, |d: DriverSlot| is_fs(d));
    let filename = name_str(name);
    let r = drivers.fs_driver();
    let res = match r {
        Some(fs) => Some(fs.write_file(ctx, filename, data)),
        None => None,
    };
    proof {
        if res matches Some(Err(_)) {
            assert(drivers.slots() =~= s0);
        }
    }
    match res {
        Some(Ok(n)) => n as u64,
        _ => SYSCALL_ERROR,
    }
}

/// Second half of `SYS_NET_SEND`, on the data copied from the caller: the
/// error value for more than `MAX_NET_PACKET_LEN` bytes, 0 for none; else the
/// number of bytes sent, or the error value without a network driver or
/// when the send is refused.
pub fn sys_net_send(ctx: &mut TsContext, drivers: &mut DriverSet, data: &[u8]) -> (r: u64)
    ensures
        data@.len() > MAX_NET_PACKET_LEN ==> r == SYSCALL_ERROR && final(drivers).slots() == old(drivers).slots() && *final(ctx) == *old(ctx),
        data@.len() == 0 ==> r == 0 && final(drivers).slots() == old(drivers).slots() && *final(ctx) == *old(ctx),
        0 < data@.len() <= MAX_NET_PACKET_LEN ==> ({
            let s = old(drivers).slots();
            let i = first_of_kind(s, |d: DriverSlot| is_net(d));
            &&& i == s.len() ==> r == SYSCALL_ERROR && final(drivers).slots() == s
            &&& i < s.len() ==> (s[i] matches DriverSlot::Net(n) && {
                let ok = current_weight(*old(ctx)) >= crate::net::MIN_WEIGHT_NET_SEND && data@.len() <= crate::net::MAX_PACKET_LEN
                    && n.packets().len() < crate::net::LOOPBACK_QUEUE_CAP;
                &&& ok ==> r == data@.len() && final(drivers).slots().len() == s.len() && (final(drivers).slots()[i] matches DriverSlot::Net(m)
                    && m.packets() == n.packets().push(data@)) && (forall|j: int| 0 <= j < s.len() && j != i ==> #[trigger] final(drivers).slots()[j] == s[j])
                &&& !ok ==> r == SYSCALL_ERROR && final(drivers).slots().len() == s.len() && (final(drivers).slots()[i] matches DriverSlot::Net(m)
                    && m.packets() == n.packets()) && (forall|j: int| 0 <= j < s.len() && j != i ==> #[trigger] final(drivers).slots()[j] == s[j])
            })
        }),
        final(ctx).registry == old(ctx).registry,
        final(ctx).current == old(ctx).current,
        current_weight(*old(ctx)) >= crate::net::MIN_WEIGHT_NET_SEND ==> final(ctx).violations == old(ctx).violations,
        first_of_kind(old(drivers).slots(), |d: DriverSlot| is_net(d)) == old(drivers).slots().len() ==> *final(ctx) == *old(ctx),
        0 < data@.len() <= MAX_NET_PACKET_LEN && first_of_kind(old(drivers).slots(), |d: DriverSlot| is_net(d)) < old(drivers).slots().len()
            && current_weight(*old(ctx)) < crate::net::MIN_WEIGHT_NET_SEND ==> refused(*old(ctx), *final(ctx), "net send"@, crate::net::MIN_WEIGHT_NET_SEND),
{
    if data.len() as u64 > MAX_NET_PACKET_LEN {
        return SYSCALL_ERROR;
    }
    if data.len() == 0 {
        return 0;
    }
    proof {
        lemma_first_of_kind(drivers.slots(), |d: DriverSlot| is_net(d));
    }
    let r = drivers.net_driver();
    match r {
        Some(net) => match net.send_packet(ctx, data) {
            Ok(n) => n as u64,
            Err(()) => SYSCALL_ERROR,
        },
        None => SYSCALL_ERROR,
    }
}

/// Second half of `SYS_NET_RECV`: `None` for a buffer longer than
/// `MAX_NET_PACKET_LEN`; else the oldest packet's first `buf_len` bytes
/// (all of them when it is shorter), to be copied back to the caller; the
/// packet leaves the queue whole. `None` (answered with the error value)
/// without a network driver, when the receive is refused, or when nothing
/// is queued.
pub fn sys_net_recv(ctx: &mut TsContext, drivers: &mut DriverSet, buf_len: u64) -> (r: Option<Vec<u8>>)
    ensures
        buf_len > MAX_NET_PACKET_LEN ==> r is None && final(drivers).slots() == old(drivers).slots() && *final(ctx) == *old(ctx),
        buf_len <= MAX_NET_PACKET_LEN ==> ({
            let s = old(drivers).slots();
            let i = first_of_kind(s, |d: DriverSlot| is_net(d));
            &&& i == s.len() ==> r is None && final(drivers).slots() == s
            &&& i < s.len() ==> (s[i] matches DriverSlot::Net(n) && {
                &&& r is Some <==> current_weight(*old(ctx)) >= crate::net::MIN_WEIGHT_NET_RECV && n.packets().len() > 0
                &&& r matches Some(v) ==> v@ == n.packets()[0].take(capped(n.packets()[0].len(), buf_len))
                &&& final(drivers).slots().len() == s.len()
                &&& final(drivers).slots()[i] matches DriverSlot::Net(m) && m.packets() == (if r is Some { n.packets().drop_first() } else { n.packets() })
                &&& forall|j: int| 0 <= j < s.len() && j != i ==> #[trigger] final(drivers).slots()[j] == s[j]
            })
        }),
        final(ctx).registry == old(ctx).registry,
        final(ctx).current == old(ctx).current,
        current_weight(*old(ctx)) >= crate::net::MIN_WEIGHT_NET_RECV ==> final(ctx).violations == old(ctx).violations,
        first_of_kind(old(drivers).slots(), |d: DriverSlot| is_net(d)) == old(drivers).slots().len() ==> *final(ctx) == *old(ctx),
        buf_len <= MAX_NET_PACKET_LEN && first_of_kind(old(drivers).slots(), |d: DriverSlot| is_net(d)) < old(drivers).slots().len()
            && current_weight(*old(ctx)) < crate::net::MIN_WEIGHT_NET_RECV ==> refused(*old(ctx), *final(ctx), "net recv"@, crate::net::MIN_WEIGHT_NET_RECV),
{
    if buf_len > MAX_NET_PACKET_LEN {
        return None;
    }
    proof {
        lemma_first_of_kind(drivers.slots(), |d: DriverSlot| is_net(d));
    }
    let r = drivers.net_driver();
    match r {
        Some(net) => match net.recv_packet(ctx) {
            Some(p) => Some(prefix(&p, buf_len)),
            None => None,
        },
        None => None,
    }
}

/// A system call needs the weight that the operation it carries out needs:
/// reading a file, like listing the files, needs the ramdisk's read weight
/// (500), writing needs its write weight, and sending and receiving need
/// the network's weights; so a caller of weight 500 or more is admitted to a
/// file read, and with a name of 1 to 256 bytes and a buffer of at most 64
/// KiB it is passed on with its four arguments as they came.
pub proof fn lemma_call_weights(w: u32, a: u64, b: u64, c: u64, d: u64, files: Option<nat>)
    ensures
        syscall_min_weight(SYS_FS_READ) == crate::fs::MIN_WEIGHT_FS_READ,
        syscall_min_weight(SYS_FS_READ) == syscall_min_weight(SYS_FS_LIST),
        syscall_min_weight(SYS_FS_LIST) == crate::fs::MIN_WEIGHT_FS_LIST,
        syscall_min_weight(SYS_FS_WRITE) == crate::fs::MIN_WEIGHT_FS_WRITE,
        syscall_min_weight(SYS_NET_SEND) == crate::net::MIN_WEIGHT_NET_SEND,
        syscall_min_weight(SYS_NET_RECV) == crate::net::MIN_WEIGHT_NET_RECV,
        w >= 500 ==> w >= syscall_min_weight(SYS_FS_READ),
        w >= 500 && 0 < b <= 256 && d <= 65536 ==> admitted_step(SYS_FS_READ, a, b, c, d, w, files)
            == (SyscallStep::FsRead { name_ptr: a, name_len: b, buf_ptr: c, buf_len: d }),
{
}

/// The calls of two arguments read only the first two: what a write, a send
/// or a receive call does does not depend on the third and fourth, and a
/// receive of a buffer of at most 2048 bytes at `a` is passed on with the
/// buffer's address `a` and length `b` (a longer buffer is refused), as a
/// send of 1 to 2048 bytes is.
pub proof fn lemma_two_argument_calls(a: u64, b: u64, c: u64, d: u64, c2: u64, d2: u64, w: u32, files: Option<nat>)
    ensures
        admitted_step(SYS_WRITE, a, b, c, d, w, files) == admitted_step(SYS_WRITE, a, b, c2, d2, w, files),
        admitted_step(SYS_NET_SEND, a, b, c, d, w, files) == admitted_step(SYS_NET_SEND, a, b, c2, d2, w, files),
        admitted_step(SYS_NET_RECV, a, b, c, d, w, files) == admitted_step(SYS_NET_RECV, a, b, c2, d2, w, files),
        b <= 2048 ==> admitted_step(SYS_NET_RECV, a, b, c, d, w, files) == (SyscallStep::NetRecv { ptr: a, len: b }),
        b > 2048 ==> admitted_step(SYS_NET_RECV, a, b, c, d, w, files) == SyscallStep::Done(SYSCALL_ERROR),
        0 < b <= 2048 ==> admitted_step(SYS_NET_SEND, a, b, c, d, w, files) == (SyscallStep::NetSend { ptr: a, len: b }),
{
}

} // verus!
