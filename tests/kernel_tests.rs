use kernel_rs::kernel::{
    pick_next_thread, schedule_threads, timer_tick, Fatal, Frame, Kernel, Next, TaskState, MAX_ENDPOINTS, SENTINEL, SLOT_CS, SLOT_RAX, SLOT_RDI,
    SLOT_RDX, SLOT_RIP, SLOT_RSI, SLOT_VECTOR,
};
use kernel_rs::usermem::AddressSpace;

// Same layout as in the user-memory tests, plus PT[4] free for mappings:
//   0x400000 -> 0x0000 rw, 0x401000 -> 0x1000 ro, 0x403000 -> 0x3000 rw.
fn space() -> AddressSpace {
    let mut tables = vec![0u64; 0x5000 / 8];
    tables[0x1000 / 8] = 0x2000 | 7;
    tables[0x2000 / 8] = 0x3000 | 7;
    tables[0x3000 / 8 + 2] = 0x4000 | 7;
    tables[0x4000 / 8] = 0x0000 | 7;
    tables[0x4000 / 8 + 1] = 0x1000 | 5;
    tables[0x4000 / 8 + 2] = 0x2000 | 3;
    tables[0x4000 / 8 + 3] = 0x3000 | 7;
    AddressSpace { root: 0x1000, tables, frames: vec![0u8; 0x6000] }
}

fn kernel(tasks: usize) -> Kernel {
    let mut k = Kernel::new(tasks, space(), [0x4000, 0x5000]);
    for ep in 0..MAX_ENDPOINTS {
        k.activate_endpoint(ep);
    }
    for t in 0..tasks {
        k.init_task(t, 0x400000 + 0x1000 * t as u64, 0x800000 - 0x1000 * t as u64);
    }
    k.start(0);
    k
}

fn put(k: &mut Kernel, phys: usize, bytes: &[u8]) {
    k.space.frames[phys..phys + bytes.len()].copy_from_slice(bytes);
}

fn call(k: &mut Kernel, frame: &mut Frame, nr: u64, a1: u64, a2: u64, a3: u64) -> Next {
    frame[SLOT_RAX] = nr;
    frame[SLOT_RDI] = a1;
    frame[SLOT_RSI] = a2;
    frame[SLOT_RDX] = a3;
    let mut console = Vec::new();
    k.syscall_dispatch(frame, &mut console)
}

fn live_frame(k: &Kernel) -> Frame {
    k.tasks[k.current].saved_frame
}

#[test]
fn new_task_frame_enters_ring3() {
    let k = kernel(2);
    let f = k.tasks[1].saved_frame;
    assert_eq!(f[SLOT_RIP], 0x401000);
    assert_eq!(f[SLOT_CS], 0x23);
    assert_eq!(f[19], 0x002);
    assert_eq!(f[20], 0x7FF000);
    assert_eq!(f[21], 0x1B);
    assert_eq!(k.tasks[0].state, TaskState::Running);
    assert_eq!(k.tasks[1].state, TaskState::Ready);
}

#[test]
fn ipc_buffer_full() {
    let mut k = kernel(1);
    put(&mut k, 0x100, b"AAAA");
    put(&mut k, 0x200, b"BBBB");
    let mut f = live_frame(&k);
    assert_eq!(call(&mut k, &mut f, 8, 0, 0x400100, 4), Next::Resume);
    assert_eq!(f[SLOT_RAX], 0);
    assert_eq!(call(&mut k, &mut f, 8, 0, 0x400200, 4), Next::Resume);
    assert_eq!(f[SLOT_RAX], SENTINEL);
    assert_eq!(call(&mut k, &mut f, 9, 0, 0x400300, 256), Next::Resume);
    assert_eq!(f[SLOT_RAX], 4);
    assert_eq!(k.space.frames[0x300], b'A');
    assert!(!k.endpoints[0].has_msg);
}

#[test]
fn ipc_badptr_send() {
    let mut k = kernel(1);
    let mut f = live_frame(&k);
    call(&mut k, &mut f, 8, 0, 0xDEAD0000, 16);
    assert_eq!(f[SLOT_RAX], SENTINEL);
    assert!(!k.endpoints[0].has_msg);
}

#[test]
fn ipc_bad_endpoint() {
    let mut k = kernel(1);
    let mut f = live_frame(&k);
    call(&mut k, &mut f, 8, 4, 0x400000, 1);
    assert_eq!(f[SLOT_RAX], SENTINEL);
    call(&mut k, &mut f, 9, 7, 0x400000, 1);
    assert_eq!(f[SLOT_RAX], SENTINEL);
    let mut k2 = Kernel::new(1, space(), [0x4000, 0x5000]);
    k2.init_task(0, 0x400000, 0x800000);
    k2.start(0);
    let mut f2 = live_frame(&k2);
    call(&mut k2, &mut f2, 8, 0, 0x400000, 1);
    assert_eq!(f2[SLOT_RAX], SENTINEL);
}

#[test]
fn ipc_recv_unwritable_buffer() {
    let mut k = kernel(1);
    let mut f = live_frame(&k);
    call(&mut k, &mut f, 9, 0, 0x401000, 16);
    assert_eq!(f[SLOT_RAX], SENTINEL);
    assert_eq!(k.tasks[0].state, TaskState::Running);
}

#[test]
fn ipc_ping_pong() {
    let mut k = kernel(2);
    // pong: register "pong" at endpoint 0, then wait on it.
    put(&mut k, 0x100, b"pong");
    let mut f = live_frame(&k);
    call(&mut k, &mut f, 11, 0x400100, 4, 0);
    assert_eq!(f[SLOT_RAX], 0);
    assert_eq!(call(&mut k, &mut f, 9, 0, 0x400200, 16), Next::Resume);
    assert_eq!(k.current, 1);
    assert_eq!(k.tasks[0].state, TaskState::Blocked);
    assert_eq!(k.endpoints[0].waiter, 0);
    assert_eq!(f[SLOT_RIP], 0x401000);
    // ping: look the name up and send to it; the message goes straight to pong.
    put(&mut k, 0x3100, b"pong");
    put(&mut k, 0x3200, b"ping");
    call(&mut k, &mut f, 12, 0x403100, 4, 0);
    assert_eq!(f[SLOT_RAX], 0);
    call(&mut k, &mut f, 8, 0, 0x403200, 4);
    assert_eq!(f[SLOT_RAX], 0);
    assert!(!k.endpoints[0].has_msg);
    assert_eq!(k.endpoints[0].waiter, -1);
    assert_eq!(k.tasks[0].state, TaskState::Ready);
    assert_eq!(k.tasks[0].saved_frame[SLOT_RAX], 4);
    assert_eq!(&k.space.frames[0x200..0x204], b"ping");
    // ping waits for the answer on endpoint 1; pong resumes with 4.
    call(&mut k, &mut f, 9, 1, 0x403300, 16);
    assert_eq!(k.current, 0);
    assert_eq!(f[SLOT_RAX], 4);
    put(&mut k, 0x300, b"pong");
    call(&mut k, &mut f, 8, 1, 0x400300, 4);
    assert_eq!(f[SLOT_RAX], 0);
    assert_eq!(&k.space.frames[0x3300..0x3304], b"pong");
    assert_eq!(k.tasks[1].saved_frame[SLOT_RAX], 4);
}

#[test]
fn direct_delivery_truncates_to_capacity() {
    let mut k = kernel(2);
    let mut f = live_frame(&k);
    call(&mut k, &mut f, 9, 2, 0x400200, 2);
    put(&mut k, 0x3200, b"hello");
    call(&mut k, &mut f, 8, 2, 0x403200, 5);
    assert_eq!(f[SLOT_RAX], 0);
    assert_eq!(k.tasks[0].saved_frame[SLOT_RAX], 2);
    assert_eq!(&k.space.frames[0x200..0x203], &[b'h', b'e', 0]);
}

#[test]
fn recv_without_ready_task_deadlocks() {
    let mut k = kernel(1);
    let mut f = live_frame(&k);
    assert_eq!(call(&mut k, &mut f, 9, 0, 0x400200, 16), Next::Deadlock);
    assert_eq!(k.tasks[0].state, TaskState::Blocked);
}

#[test]
fn svc_overwrite() {
    let mut k = kernel(1);
    put(&mut k, 0x100, b"foo");
    let mut f = live_frame(&k);
    call(&mut k, &mut f, 11, 0x400100, 3, 1);
    assert_eq!(f[SLOT_RAX], 0);
    call(&mut k, &mut f, 11, 0x400100, 3, 2);
    assert_eq!(f[SLOT_RAX], 0);
    call(&mut k, &mut f, 12, 0x400100, 3, 0);
    assert_eq!(f[SLOT_RAX], 2);
    assert_eq!(k.services.iter().filter(|s| s.active).count(), 1);
}

#[test]
fn svc_full() {
    let mut k = kernel(1);
    put(&mut k, 0x100, b"abcde");
    let mut f = live_frame(&k);
    for i in 0..4u64 {
        call(&mut k, &mut f, 11, 0x400100 + i, 1, i);
        assert_eq!(f[SLOT_RAX], 0);
    }
    call(&mut k, &mut f, 11, 0x400104, 1, 9);
    assert_eq!(f[SLOT_RAX], SENTINEL);
    call(&mut k, &mut f, 12, 0x400104, 1, 0);
    assert_eq!(f[SLOT_RAX], SENTINEL);
    call(&mut k, &mut f, 12, 0x400102, 1, 0);
    assert_eq!(f[SLOT_RAX], 2);
}

#[test]
fn svc_bad_names() {
    let mut k = kernel(1);
    let mut f = live_frame(&k);
    call(&mut k, &mut f, 11, 0x400100, 0, 1);
    assert_eq!(f[SLOT_RAX], SENTINEL);
    call(&mut k, &mut f, 11, 0x400100, 17, 1);
    assert_eq!(f[SLOT_RAX], SENTINEL);
    call(&mut k, &mut f, 11, 0xDEAD0000, 4, 1);
    assert_eq!(f[SLOT_RAX], SENTINEL);
}

#[test]
fn round_robin_picks_next_ready_after_current() {
    let mut k = kernel(4);
    k.tasks[1].state = TaskState::Dead;
    assert_eq!(k.find_ready(0), Some(2));
    assert_eq!(k.find_ready(2), Some(3));
    assert_eq!(k.find_ready(3), Some(2));
    k.tasks[2].state = TaskState::Blocked;
    k.tasks[3].state = TaskState::Dead;
    assert_eq!(k.find_ready(0), None);
}

#[test]
fn yield_switches_and_returns_zero() {
    let mut k = kernel(2);
    let mut f = live_frame(&k);
    f[SLOT_RIP] = 0x400040;
    assert_eq!(call(&mut k, &mut f, 3, 0, 0, 0), Next::Resume);
    assert_eq!(k.current, 1);
    assert_eq!(k.tasks[0].state, TaskState::Ready);
    assert_eq!(k.tasks[0].saved_frame[SLOT_RAX], 0);
    assert_eq!(k.tasks[0].saved_frame[SLOT_RIP], 0x400040);
    assert_eq!(f[SLOT_RIP], 0x401000);
    let mut k1 = kernel(1);
    let mut f1 = live_frame(&k1);
    call(&mut k1, &mut f1, 3, 0, 0, 0);
    assert_eq!(k1.current, 0);
    assert_eq!(f1[SLOT_RAX], 0);
}

#[test]
fn user_fault_kills_task() {
    let mut k = kernel(2);
    let mut f = live_frame(&k);
    f[SLOT_VECTOR] = 14;
    f[SLOT_CS] = 0x23;
    let mut console = Vec::new();
    assert_eq!(k.trap_handler(&mut f, &mut console), Next::Resume);
    assert_eq!(k.tasks[0].state, TaskState::Dead);
    assert_eq!(k.current, 1);
    f[SLOT_VECTOR] = 13;
    f[SLOT_CS] = 0x23;
    assert_eq!(k.trap_handler(&mut f, &mut console), Next::AllDone);
}

#[test]
fn kernel_traps_are_fatal() {
    let mut k = kernel(1);
    let mut console = Vec::new();
    let mut f = live_frame(&k);
    f[SLOT_VECTOR] = 0;
    assert_eq!(k.trap_handler(&mut f, &mut console), Next::Fatal(Fatal::DivideError));
    f[SLOT_VECTOR] = 3;
    assert_eq!(k.trap_handler(&mut f, &mut console), Next::Fatal(Fatal::Breakpoint));
    f[SLOT_VECTOR] = 8;
    assert_eq!(k.trap_handler(&mut f, &mut console), Next::Fatal(Fatal::DoubleFault));
    f[SLOT_VECTOR] = 13;
    f[SLOT_CS] = 0x08;
    f[16] = 0x18;
    assert_eq!(k.trap_handler(&mut f, &mut console), Next::Fatal(Fatal::GeneralProtection(0x18)));
    f[SLOT_VECTOR] = 14;
    assert_eq!(k.trap_handler(&mut f, &mut console), Next::Fatal(Fatal::PageFault(0x18)));
    f[SLOT_VECTOR] = 32;
    assert_eq!(k.trap_handler(&mut f, &mut console), Next::Timer);
    f[SLOT_VECTOR] = 77;
    let before = f;
    assert_eq!(k.trap_handler(&mut f, &mut console), Next::Resume);
    assert_eq!(f, before);
}

#[test]
fn hello_debug_write() {
    let mut k = kernel(1);
    put(&mut k, 0x10, b"USER: hello\n");
    let mut f = live_frame(&k);
    f[SLOT_VECTOR] = 128;
    f[SLOT_RAX] = 0;
    f[SLOT_RDI] = 0x400010;
    f[SLOT_RSI] = 12;
    let mut console = Vec::new();
    assert_eq!(k.trap_handler(&mut f, &mut console), Next::Resume);
    assert_eq!(f[SLOT_RAX], 12);
    assert_eq!(console, b"USER: hello\n".to_vec());
    let (n, bytes) = k.sys_debug_write(0x400000, 1000);
    assert_eq!(n, 256);
    assert_eq!(bytes.len(), 256);
    assert_eq!(k.sys_debug_write(0xDEAD0000, 4).0, SENTINEL);
}

#[test]
fn unknown_syscall_and_exit() {
    let mut k = kernel(1);
    let mut f = live_frame(&k);
    assert_eq!(call(&mut k, &mut f, 99, 0, 0, 0), Next::Resume);
    assert_eq!(f[SLOT_RAX], SENTINEL);
    assert_eq!(call(&mut k, &mut f, 98, 0x31, 0, 0), Next::Exit(0x31));
}

#[test]
fn time_now_is_monotonic() {
    let mut k = kernel(1);
    let mut f = live_frame(&k);
    call(&mut k, &mut f, 10, 0, 0, 0);
    let t1 = f[SLOT_RAX];
    call(&mut k, &mut f, 10, 0, 0, 0);
    assert_eq!(t1, 1);
    assert_eq!(f[SLOT_RAX], 2);
}

#[test]
fn shm_create_and_map() {
    let mut k = kernel(1);
    let mut f = live_frame(&k);
    k.space.frames[0x4010] = 0x77;
    call(&mut k, &mut f, 6, 0, 0, 0);
    assert_eq!(f[SLOT_RAX], SENTINEL);
    call(&mut k, &mut f, 6, 5000, 0, 0);
    assert_eq!(f[SLOT_RAX], SENTINEL);
    call(&mut k, &mut f, 6, 100, 0, 0);
    assert_eq!(f[SLOT_RAX], 0);
    assert_eq!(k.space.frames[0x4010], 0);
    assert_eq!(k.shm[0].size, 4096);
    call(&mut k, &mut f, 7, 0, 0x404001, 0);
    assert_eq!(f[SLOT_RAX], SENTINEL);
    call(&mut k, &mut f, 7, 1, 0x404000, 0);
    assert_eq!(f[SLOT_RAX], SENTINEL);
    call(&mut k, &mut f, 7, 0, 0x404000, 0);
    assert_eq!(f[SLOT_RAX], 0x404000);
    assert_eq!(k.space.tables[0x4000 / 8 + 4], 0x4000 | 7);
    assert_eq!(k.space.copyout_user(0x404008, &[5], 1), Ok(()));
    assert_eq!(k.space.frames[0x4008], 5);
    call(&mut k, &mut f, 6, 1, 0, 0);
    assert_eq!(f[SLOT_RAX], 1);
    call(&mut k, &mut f, 6, 1, 0, 0);
    assert_eq!(f[SLOT_RAX], SENTINEL);
}

#[test]
fn blk_rw_round_trip_through_buffers() {
    let mut k = kernel(1);
    for b in &mut k.space.frames[0x3000..0x3200] {
        *b = 0xAA;
    }
    let data = k.sys_blk_write_begin(0x403000, 512).unwrap();
    assert_eq!(Kernel::sys_blk_write_end(512, true), 512);
    assert_eq!(Kernel::sys_blk_write_end(512, false), SENTINEL);
    assert!(k.sys_blk_read_begin(0x400000, 512));
    assert_eq!(k.sys_blk_read_end(0x400000, 512, true, &data), 512);
    assert_eq!(k.space.frames[0], 0xAA);
    assert_eq!(k.space.frames[511], 0xAA);
    assert_eq!(k.sys_blk_read_end(0x400000, 512, false, &data), SENTINEL);
}

#[test]
fn blk_badlen() {
    let k = kernel(1);
    assert!(!k.sys_blk_read_begin(0x400000, 513));
    assert!(!k.sys_blk_read_begin(0x400000, 0));
    assert!(!k.sys_blk_read_begin(0x400000, 4608));
    assert!(!k.sys_blk_read_begin(0x401000, 512));
    assert!(k.sys_blk_write_begin(0x400000, 513).is_none());
    assert!(k.sys_blk_write_begin(0x402000, 512).is_none());
}

#[test]
fn kernel_thread_round_robin() {
    let (run, ready, dead) = (TaskState::Running, TaskState::Ready, TaskState::Dead);
    assert_eq!(pick_next_thread(&[run, ready, ready], 0), Some(1));
    assert_eq!(pick_next_thread(&[ready, ready, run], 2), Some(0));
    assert_eq!(pick_next_thread(&[run, dead, dead], 0), None);
    assert_eq!(pick_next_thread(&[dead, dead, ready], 0), Some(2));
    assert_eq!(pick_next_thread(&[ready, dead], 0), None);
    assert_eq!(pick_next_thread(&[run], 0), None);
}

fn slots_exclusive(k: &Kernel) -> bool {
    k.endpoints.iter().all(|e| !(e.has_msg && e.waiter >= 0))
}

fn blocked_tasks_wait(k: &Kernel) -> bool {
    (0..k.tasks.len()).all(|t| {
        k.tasks[t].state != TaskState::Blocked
            || k.endpoints.iter().any(|e| e.waiter == t as i32 && !e.has_msg)
    })
}

#[test]
fn endpoint_invariants_hold_through_exchange() {
    let mut k = kernel(3);
    let mut f = live_frame(&k);
    put(&mut k, 0x3000, b"xy");
    call(&mut k, &mut f, 9, 0, 0x400200, 8);
    assert!(slots_exclusive(&k) && blocked_tasks_wait(&k));
    call(&mut k, &mut f, 9, 1, 0x400300, 8);
    assert!(slots_exclusive(&k) && blocked_tasks_wait(&k));
    assert_eq!(k.current, 2);
    call(&mut k, &mut f, 8, 2, 0x403000, 2);
    assert!(k.endpoints[2].has_msg);
    assert!(slots_exclusive(&k) && blocked_tasks_wait(&k));
    call(&mut k, &mut f, 8, 0, 0x403000, 2);
    assert!(slots_exclusive(&k) && blocked_tasks_wait(&k));
    assert_eq!(k.tasks[0].state, TaskState::Ready);
    call(&mut k, &mut f, 8, 1, 0x403000, 1);
    assert_eq!(k.tasks[1].saved_frame[SLOT_RAX], 1);
    assert!(slots_exclusive(&k) && blocked_tasks_wait(&k));
}

#[test]
fn recv_on_endpoint_with_waiter_fails() {
    let mut k = kernel(3);
    let mut f = live_frame(&k);
    call(&mut k, &mut f, 9, 0, 0x400200, 8);
    assert_eq!(k.current, 1);
    assert_eq!(call(&mut k, &mut f, 9, 0, 0x400300, 8), Next::Resume);
    assert_eq!(f[SLOT_RAX], SENTINEL);
    assert_eq!(k.current, 1);
    assert_eq!(k.tasks[1].state, TaskState::Running);
    assert_eq!(k.endpoints[0].waiter, 0);
    assert!(blocked_tasks_wait(&k));
}

#[test]
fn block_syscalls_through_dispatch() {
    let mut k = kernel(1);
    let mut f = live_frame(&k);
    assert_eq!(
        call(&mut k, &mut f, 13, 5, 0x400000, 512),
        Next::BlockRead { lba: 5, buf: 0x400000, len: 512 }
    );
    assert_eq!(call(&mut k, &mut f, 13, 5, 0x400000, 513), Next::Resume);
    assert_eq!(f[SLOT_RAX], SENTINEL);
    assert_eq!(
        call(&mut k, &mut f, 14, 2, 0x401000, 1024),
        Next::BlockWrite { lba: 2, buf: 0x401000, len: 1024 }
    );
    assert_eq!(call(&mut k, &mut f, 14, 2, 0x402000, 512), Next::Resume);
    assert_eq!(f[SLOT_RAX], SENTINEL);
}

#[test]
fn thread_switch_updates_states() {
    let (run, ready, dead) = (TaskState::Running, TaskState::Ready, TaskState::Dead);
    let mut st = [run, ready, ready, dead];
    assert_eq!(schedule_threads(&mut st, 3, 0), Some(1));
    assert_eq!(st, [ready, run, ready, dead]);
    let mut st2 = [dead, run, dead, dead];
    assert_eq!(schedule_threads(&mut st2, 2, 1), None);
    assert_eq!(st2, [dead, run, dead, dead]);
    let mut st3 = [dead, ready, dead, dead];
    assert_eq!(schedule_threads(&mut st3, 2, 0), Some(1));
    assert_eq!(st3, [dead, run, dead, dead]);
}

#[test]
fn timer_ticks() {
    assert_eq!(timer_tick(0), (1, false, false));
    assert_eq!(timer_tick(99), (100, true, false));
    assert_eq!(timer_tick(399), (400, false, true));
    assert_eq!(timer_tick(u64::MAX), (u64::MAX, false, true));
}

#[test]
fn boot_state_before_ring3() {
    let k = kernel(2);
    assert_eq!(k.current, 0);
    assert!(k.services.iter().all(|e| !e.active));
    assert!(k.endpoints.iter().all(|e| !e.has_msg && e.waiter == -1));
    assert!(k.shm.iter().all(|o| !o.active));
    assert!(k.tasks.iter().all(|t| t.state != TaskState::Blocked));
    assert_eq!(k.tick, 1);
}
