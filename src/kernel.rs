//! Kernel state threaded through every trap: the task table and its
//! round-robin scheduler, the IPC endpoints, the service registry, the
//! shared-memory pool and the user address space.
//!
//! A trap hands the live interrupt frame to a handler, which may overwrite it
//! to resume another task; the handler then says how the trap ends.
use vstd::prelude::*;
use crate::usermem::{AddressSpace, entry_at, table_index, PHYS_ADDR_LIMIT, PTE_ADDR_MASK, PTE_PRESENT};

verus! {

/// Words in an interrupt frame: fifteen registers, vector, error code, and
/// RIP, CS, RFLAGS, RSP, SS.
pub const FRAME_WORDS: usize = 22;

/// Frame slot of RAX: syscall number in, return value out.
pub const SLOT_RAX: usize = 14;

/// Frame slot of RDI, the first syscall argument.
pub const SLOT_RDI: usize = 9;

/// Frame slot of RSI, the second syscall argument.
pub const SLOT_RSI: usize = 10;

/// Frame slot of RDX, the third syscall argument.
pub const SLOT_RDX: usize = 11;

/// Frame slot of R10, the fourth syscall argument.
pub const SLOT_R10: usize = 5;

/// Frame slot of the interrupt vector.
pub const SLOT_VECTOR: usize = 15;

/// Frame slot of the error code.
pub const SLOT_ERROR: usize = 16;

/// Frame slot of RIP.
pub const SLOT_RIP: usize = 17;

/// Frame slot of CS.
pub const SLOT_CS: usize = 18;

/// Frame slot of RFLAGS.
pub const SLOT_RFLAGS: usize = 19;

/// Frame slot of RSP.
pub const SLOT_RSP: usize = 20;

/// Frame slot of SS.
pub const SLOT_SS: usize = 21;

/// User code selector with RPL 3.
pub const USER_CS: u64 = 0x23;

/// User data selector with RPL 3.
pub const USER_SS: u64 = 0x1B;

/// RFLAGS for a fresh task: interrupts off, reserved bit 1 set.
pub const USER_RFLAGS: u64 = 0x002;

/// The all-ones value every failing syscall returns.
pub const SENTINEL: u64 = 0xFFFF_FFFF_FFFF_FFFF;

/// Capacity of the task table.
pub const MAX_TASKS: usize = 4;

/// Number of IPC endpoints.
pub const MAX_ENDPOINTS: usize = 4;

/// Largest IPC message, in bytes.
pub const MAX_MSG_LEN: usize = 256;

/// Number of service-registry slots.
pub const MAX_SERVICES: usize = 4;

/// Longest service name, in bytes.
pub const MAX_SERVICE_NAME: usize = 16;

/// Number of shared-memory objects.
pub const MAX_SHM: usize = 2;

/// Size of a shared-memory object's backing page.
pub const SHM_PAGE_SIZE: u64 = 4096;

/// Present | Writable | User: the bits of a shared-memory mapping.
pub const SHM_PTE_FLAGS: u64 = 0x07;

/// A saved or live interrupt frame.
pub type Frame = [u64; 22];

/// Where a task is in its life: exactly one task runs; a blocked task waits
/// in `recv`; a dead task never runs again.
#[derive(Clone, Copy, PartialEq, Eq, Structural, Debug)]
pub enum TaskState {
    Ready,
    Running,
    Blocked,
    Dead,
}

/// A user task: its saved frame, its state, and where a blocked `recv`
/// wants its message delivered.
#[derive(Clone, Copy)]
pub struct Task {
    pub saved_frame: Frame,
    pub state: TaskState,
    pub recv_ep: u64,
    pub recv_buf: u64,
    pub recv_cap: u64,
}

/// A single-slot synchronous message channel.
#[derive(Clone, Copy)]
pub struct Endpoint {
    pub active: bool,
    pub has_msg: bool,
    pub msg_data: [u8; 256],
    pub msg_len: usize,
    /// Task blocked in `recv` on this endpoint, or -1.
    pub waiter: i32,
}

/// A registry slot binding a name to an endpoint handle.
#[derive(Clone, Copy)]
pub struct ServiceEntry {
    pub active: bool,
    pub name: [u8; 16],
    pub name_len: usize,
    pub endpoint: u64,
}

/// A shared-memory object backed by one kernel page at `phys`.
#[derive(Clone, Copy)]
pub struct ShmObject {
    pub active: bool,
    pub size: u64,
    pub phys: u64,
}

/// How a trap ends once its handler has run.
#[derive(Clone, Copy, PartialEq, Eq, Structural, Debug)]
pub enum Next {
    /// Return to user mode through the (possibly rewritten) frame.
    Resume,
    /// The current task blocked and no task is ready: the kernel exits.
    Deadlock,
    /// No task is left to run: the kernel exits.
    AllDone,
    /// The test-only exit syscall: terminate the VM with this code.
    Exit(u8),
    /// A timer tick: acknowledge the interrupt controller and resume.
    Timer,
    /// A checked `blk_read`: read `len` bytes at sector `lba` from the
    /// device, then finish with `sys_blk_read_end`.
    BlockRead { lba: u64, buf: u64, len: u64 },
    /// A checked `blk_write`: take the bytes from `sys_blk_write_begin`,
    /// write them at sector `lba`, then finish with `sys_blk_write_end`.
    BlockWrite { lba: u64, buf: u64, len: u64 },
    /// A fault the kernel cannot survive.
    Fatal(Fatal),
}

/// Traps that stop the kernel.
#[derive(Clone, Copy, PartialEq, Eq, Structural, Debug)]
pub enum Fatal {
    DivideError,
    /// A breakpoint, used as the trap self-test.
    Breakpoint,
    DoubleFault,
    /// General protection fault in ring 0, with its error code.
    GeneralProtection(u64),
    /// Page fault in ring 0, with its error code.
    PageFault(u64),
}

impl Endpoint {
    /// An inactive endpoint with an empty slot and no waiter.
    pub fn empty() -> (r: Endpoint)
        ensures
            !r.active,
            !r.has_msg,
            r.msg_len == 0,
            r.waiter == -1,
    {
        Endpoint { active: false, has_msg: false, msg_data: [0u8; 256], msg_len: 0, waiter: -1 }
    }

    /// The buffered message.
    pub open spec fn msg(&self) -> Seq<u8> {
        self.msg_data@.take(self.msg_len as int)
    }
}

impl ServiceEntry {
    /// A free registry slot.
    pub fn empty() -> (r: ServiceEntry)
        ensures
            !r.active,
    {
        ServiceEntry { active: false, name: [0u8; 16], name_len: 0, endpoint: 0 }
    }

    /// The registered name.
    pub open spec fn name_view(&self) -> Seq<u8> {
        self.name@.take(self.name_len as int)
    }
}

impl Task {
    /// A task slot that was never started.
    pub fn empty() -> (r: Task)
        ensures
            r.state == TaskState::Dead,
    {
        Task { saved_frame: [0u64; 22], state: TaskState::Dead, recv_ep: 0, recv_buf: 0, recv_cap: 0 }
    }
}

/// The index visited `k` steps into a round-robin search that starts after
/// `cur`, over `n` tasks.
pub open spec fn rr_index(cur: int, k: int, n: int) -> int {
    (cur + 1 + k) % n
}

proof fn lemma_rr_step(x: int, n: int)
    requires
        n > 0,
        x >= 0,
    ensures
        0 <= x % n < n,
        (x + 1) % n == if x % n + 1 == n { 0 } else { x % n + 1 },
{
    vstd::arithmetic::div_mod::lemma_add_mod_noop(x, 1, n);
    if n == 1 {
        vstd::arithmetic::div_mod::lemma_mod_self_0(1);
        assert((x % 1) == 0);
        assert((x + 1) % 1 == 0);
    } else {
        vstd::arithmetic::div_mod::lemma_small_mod(1, n as nat);
        if x % n + 1 == n {
            vstd::arithmetic::div_mod::lemma_mod_self_0(n);
        } else {
            vstd::arithmetic::div_mod::lemma_small_mod((x % n + 1) as nat, n as nat);
        }
    }
}

/// Task `i` of `tasks` is ready and is not `cur`.
pub open spec fn eligible_in(tasks: Seq<Task>, cur: int, i: int) -> bool {
    0 <= i < tasks.len() && i != cur && tasks[i].state == TaskState::Ready
}

/// `r` is what a round-robin search of `tasks` from `cur + 1` finds: the
/// first ready task other than `cur`, or `None` when there is none.
pub open spec fn round_robin_in(tasks: Seq<Task>, cur: int, r: Option<usize>) -> bool {
    let n = tasks.len() as int;
    match r {
        Some(j) => exists|k: int|
            0 <= k < n && j == rr_index(cur, k, n) && eligible_in(tasks, cur, j as int) && forall|
                m: int,
            | 0 <= m < k ==> !#[trigger] eligible_in(tasks, cur, rr_index(cur, m, n)),
        None => forall|k: int| 0 <= k < n ==> !#[trigger] eligible_in(tasks, cur, rr_index(cur, k, n)),
    }
}

/// The kernel's whole mutable state.
pub struct Kernel {
    pub tasks: Vec<Task>,
    pub current: usize,
    pub endpoints: Vec<Endpoint>,
    pub services: Vec<ServiceEntry>,
    pub shm: Vec<ShmObject>,
    pub space: AddressSpace,
    pub tick: u64,
}

impl Kernel {
    /// `r` is what a round-robin search from `cur + 1` finds.
    pub open spec fn round_robin(&self, cur: int, r: Option<usize>) -> bool {
        round_robin_in(self.tasks@, cur, r)
    }

    /// Round-robin search for a ready task, starting after `exclude` and
    /// skipping it.
    pub fn find_ready(&self, exclude: usize) -> (r: Option<usize>)
        requires
            self.tasks@.len() < usize::MAX,
            exclude < usize::MAX - self.tasks@.len(),
        ensures
            self.round_robin(exclude as int, r),
            r is Some ==> r.unwrap() < self.tasks@.len(),
    {
        let n = self.tasks.len();
        if n == 0 {
            return None;
        }
        let mut i: usize = (exclude + 1) % n;
        let mut step: usize = 0;
        while step < n
            invariant
                n == self.tasks@.len(),
                n > 0,
                step <= n,
                i < n,
                i as int == rr_index(exclude as int, step as int, n as int),
                forall|m: int|
                    0 <= m < step ==> !#[trigger] eligible_in(
                        self.tasks@,
                        exclude as int,
                        rr_index(exclude as int, m, n as int),
                    ),
            decreases n - step,
        {
            if i != exclude && self.tasks[i].state == TaskState::Ready {
                assert(eligible_in(self.tasks@, exclude as int, i as int));
                return Some(i);
            }
            proof {
                lemma_rr_step(exclude + 1 + step, n as int);
            }
            i = if i + 1 == n { 0 } else { i + 1 };
            step = step + 1;
        }
        None
    }
}

impl Kernel {
    /// The shape every trap handler keeps: table sizes, a running task only
    /// at `current`, well-formed endpoints and registry, and shared-memory
    /// pages inside physical memory.
    pub open spec fn wf(&self) -> bool {
        &&& self.tasks@.len() <= MAX_TASKS
        &&& self.current < self.tasks@.len()
        &&& self.endpoints@.len() == MAX_ENDPOINTS
        &&& self.services@.len() == MAX_SERVICES
        &&& self.shm@.len() == MAX_SHM
        &&& forall|e: int| 0 <= e < MAX_ENDPOINTS ==> #[trigger] self.endpoint_ok(e)
        &&& forall|i: int|
            0 <= i < self.tasks@.len() && #[trigger] self.tasks@[i].state == TaskState::Running
                ==> i == self.current
        &&& self.registry_ok()
        &&& forall|i: int| 0 <= i < MAX_SHM ==> #[trigger] self.shm@[i].phys < PHYS_ADDR_LIMIT
    }

    /// Endpoint `e` has a bounded slot, a waiter that is a blocked task or
    /// -1, and never both a buffered message and a waiter.
    pub open spec fn endpoint_ok(&self, e: int) -> bool {
        let ep = self.endpoints@[e];
        &&& ep.msg_len <= MAX_MSG_LEN
        &&& -1 <= ep.waiter < self.tasks@.len()
        &&& ep.has_msg ==> ep.waiter == -1
        &&& ep.waiter >= 0 ==> self.tasks@[ep.waiter as int].state == TaskState::Blocked
        &&& ep.waiter >= 0 ==> self.tasks@[ep.waiter as int].recv_ep == e
    }

    /// Active registry names are 1 to 16 bytes long and pairwise distinct.
    pub open spec fn registry_ok(&self) -> bool {
        &&& forall|i: int|
            0 <= i < self.services@.len() && #[trigger] self.services@[i].active ==> 1
                <= self.services@[i].name_len <= MAX_SERVICE_NAME
        &&& forall|i: int, j: int|
            0 <= i < self.services@.len() && 0 <= j < self.services@.len() && i != j
                && #[trigger] self.services@[i].active && #[trigger] self.services@[j].active
                ==> self.services@[i].name_view() != self.services@[j].name_view()
    }

    /// Every blocked task is the waiter of the endpoint it receives on.
    pub open spec fn blocked_are_waiting(&self) -> bool {
        forall|t: int|
            0 <= t < self.tasks@.len() && #[trigger] self.tasks@[t].state == TaskState::Blocked
                ==> {
                &&& self.tasks@[t].recv_ep < MAX_ENDPOINTS
                &&& self.endpoints@[self.tasks@[t].recv_ep as int].waiter == t
            }
    }

    /// The task the trap came from is the running one.
    pub open spec fn running(&self) -> bool {
        self.tasks@[self.current as int].state == TaskState::Running
    }

    /// Copies `frame` into task `tid`'s save area.
    fn save_frame(&mut self, frame: &Frame, tid: usize)
        requires
            tid < old(self).tasks@.len(),
        ensures
            final(self).tasks@ == old(self).tasks@.update(
                tid as int,
                Task { saved_frame: *frame, ..old(self).tasks@[tid as int] },
            ),
            final(self).current == old(self).current,
            final(self).endpoints == old(self).endpoints,
            final(self).services == old(self).services,
            final(self).shm == old(self).shm,
            final(self).space == old(self).space,
            final(self).tick == old(self).tick,
    {
        let mut t = self.tasks[tid];
        t.saved_frame = *frame;
        self.tasks.set(tid, t);
    }

    /// Sets task `tid`'s state.
    fn set_state(&mut self, tid: usize, state: TaskState)
        requires
            tid < old(self).tasks@.len(),
        ensures
            final(self).tasks@ == old(self).tasks@.update(
                tid as int,
                Task { state: state, ..old(self).tasks@[tid as int] },
            ),
            final(self).current == old(self).current,
            final(self).endpoints == old(self).endpoints,
            final(self).services == old(self).services,
            final(self).shm == old(self).shm,
            final(self).space == old(self).space,
            final(self).tick == old(self).tick,
    {
        let mut t = self.tasks[tid];
        t.state = state;
        self.tasks.set(tid, t);
    }

    /// Installs task `tid` into the live frame and makes it the running task.
    fn switch_to(&mut self, frame: &mut Frame, tid: usize)
        requires
            tid < old(self).tasks@.len(),
        ensures
            *final(frame) == old(self).tasks@[tid as int].saved_frame,
            final(self).tasks@ == old(self).tasks@.update(
                tid as int,
                Task { state: TaskState::Running, ..old(self).tasks@[tid as int] },
            ),
            final(self).current == tid,
            final(self).endpoints == old(self).endpoints,
            final(self).services == old(self).services,
            final(self).shm == old(self).shm,
            final(self).space == old(self).space,
            final(self).tick == old(self).tick,
    {
        *frame = self.tasks[tid].saved_frame;
        self.set_state(tid, TaskState::Running);
        self.current = tid;
    }

    /// Gives up the processor: the caller's frame is saved with a 0 return
    /// value and the next ready task, in round-robin order, is installed.
    /// With no other ready task the caller continues, getting 0.
    pub fn yield_and_switch(&mut self, frame: &mut Frame) -> (r: Next)
        requires
            old(self).wf(),
            old(self).running(),
        ensures
            final(self).wf(),
            final(self).running(),
            yield_done(*old(self), *final(self), *old(frame), *final(frame), r),
    {
        let cur = self.current;
        self.save_frame(frame, cur);
        let mut t = self.tasks[cur];
        t.saved_frame[SLOT_RAX] = 0;
        self.tasks.set(cur, t);
        let ghost mid = self.tasks@;
        let pick = self.find_ready(cur);
        match pick {
            Some(tid) => {
                self.set_state(cur, TaskState::Ready);
                self.switch_to(frame, tid);
            },
            None => {
                frame[SLOT_RAX] = 0;
            },
        }
        assert(self.tasks@[cur as int].saved_frame@ =~= old(frame)@.update(SLOT_RAX as int, 0));
        proof {
            self.lemma_endpoints_kept(old(self));
        }
        assert(old(self).round_robin(cur as int, pick)) by {
            assert forall|i: int| #[trigger] eligible_in(old(self).tasks@, cur as int, i)
                == eligible_in(mid, cur as int, i) by {}
        }
        proof {
            let c = cur as int;
            let sf = self.tasks@[c].saved_frame;
            match pick {
                Some(j) => {
                    assert(self.tasks@ =~= old(self).tasks@.update(
                        c,
                        Task { state: TaskState::Ready, saved_frame: sf, ..old(self).tasks@[c] },
                    ).update(j as int, Task { state: TaskState::Running, ..old(self).tasks@[j as int] }));
                },
                None => {
                    assert(self.tasks@ =~= old(self).tasks@.update(
                        c,
                        Task { saved_frame: sf, ..old(self).tasks@[c] },
                    ));
                },
            }
            assert(yield_done(*old(self), *self, *old(frame), *frame, Next::Resume));
        }
        Next::Resume
    }

    /// Ends the current task after a user-mode fault and installs the next
    /// ready task; with none left the kernel is done.
    pub fn handle_user_fault(&mut self, frame: &mut Frame) -> (r: Next)
        requires
            old(self).wf(),
            old(self).running(),
        ensures
            final(self).wf(),
            fault_done(*old(self), *final(self), *old(frame), *final(frame), r),
    {
        let cur = self.current;
        self.set_state(cur, TaskState::Dead);
        let pick = self.find_ready(cur);
        assert(old(self).round_robin(cur as int, pick)) by {
            assert forall|i: int| #[trigger] eligible_in(old(self).tasks@, cur as int, i)
                == eligible_in(self.tasks@, cur as int, i) by {}
        }
        match pick {
            Some(tid) => {
                self.switch_to(frame, tid);
                proof {
                    self.lemma_endpoints_kept(old(self));
                }
                Next::Resume
            },
            None => {
                proof {
                    self.lemma_endpoints_kept(old(self));
                }
                Next::AllDone
            },
        }
    }

    /// A change of task states that leaves every blocked task blocked and
    /// blocks no other keeps the endpoints well formed.
    proof fn lemma_endpoints_kept(&self, prev: &Kernel)
        requires
            prev.wf(),
            self.tasks@.len() == prev.tasks@.len(),
            self.endpoints == prev.endpoints,
            self.services == prev.services,
            self.shm == prev.shm,
            self.current < self.tasks@.len(),
            forall|i: int|
                0 <= i < self.tasks@.len() ==> self.tasks@[i].recv_ep == prev.tasks@[i].recv_ep,
            forall|i: int|
                0 <= i < self.tasks@.len() ==> (self.tasks@[i].state == TaskState::Blocked
                    <==> prev.tasks@[i].state == TaskState::Blocked),
            forall|i: int|
                0 <= i < self.tasks@.len() && self.tasks@[i].state == TaskState::Running ==> i
                    == self.current,
        ensures
            self.wf(),
            prev.blocked_are_waiting() ==> self.blocked_are_waiting(),
    {
        assert forall|e: int| 0 <= e < MAX_ENDPOINTS implies #[trigger] self.endpoint_ok(e) by {
            assert(prev.endpoint_ok(e));
        }
        if prev.blocked_are_waiting() {
            assert forall|t: int|
                0 <= t < self.tasks@.len() && #[trigger] self.tasks@[t].state == TaskState::Blocked
                    implies {
                &&& self.tasks@[t].recv_ep < MAX_ENDPOINTS
                &&& self.endpoints@[self.tasks@[t].recv_ep as int].waiter == t
            } by {
                assert(prev.tasks@[t].state == TaskState::Blocked);
                assert(self.tasks@[t].recv_ep == prev.tasks@[t].recv_ep);
            }
        }
    }
}

/// `x`, but no more than `m`.
pub open spec fn at_most(x: u64, m: u64) -> u64 {
    if x > m {
        m
    } else {
        x
    }
}

impl Kernel {
    /// The endpoint that a send or receive on `endpoint` addresses.
    pub open spec fn ep(&self, endpoint: u64) -> Endpoint {
        self.endpoints@[endpoint as int]
    }

    /// Bytes a send of `len` bytes carries.
    pub open spec fn send_len(len: u64) -> u64 {
        at_most(len, MAX_MSG_LEN as u64)
    }

    /// Bytes handed to the waiter of `endpoint` by a send of `len` bytes.
    pub open spec fn delivered_len(&self, endpoint: u64, len: u64) -> u64 {
        let w = self.ep(endpoint).waiter as int;
        at_most(Self::send_len(len), self.tasks@[w].recv_cap)
    }

    /// The conditions under which `sys_ipc_send` fails.
    pub open spec fn send_fails(&self, endpoint: u64, buf: u64, len: u64) -> bool {
        let e = self.ep(endpoint);
        let w = e.waiter as int;
        ||| endpoint >= MAX_ENDPOINTS
        ||| !e.active
        ||| e.has_msg
        ||| !self.space.accessible(buf, Self::send_len(len) as nat, false)
        ||| (w >= 0 && !self.space.accessible(
            self.tasks@[w].recv_buf,
            self.delivered_len(endpoint, len) as nat,
            true,
        ))
    }

    /// Sends up to `MAX_MSG_LEN` bytes from user address `buf` on
    /// `endpoint`.  A blocked receiver gets the bytes directly (cut to its
    /// capacity), with the delivered length as its return value, and becomes
    /// ready; otherwise the message waits in the endpoint's slot.  Returns 0,
    /// or `SENTINEL` when the endpoint is missing, inactive or full, or a
    /// buffer is not accessible.
    pub fn sys_ipc_send(&mut self, endpoint: u64, buf: u64, len: u64) -> (r: u64)
        requires
            old(self).wf(),
            old(self).running(),
        ensures
            final(self).wf(),
            final(self).running(),
            send_done(*old(self), *final(self), endpoint, buf, len, r),
    {
        if endpoint >= MAX_ENDPOINTS as u64 {
            return SENTINEL;
        }
        let ep = endpoint as usize;
        if !self.endpoints[ep].active {
            return SENTINEL;
        }
        if self.endpoints[ep].has_msg {
            return SENTINEL;
        }
        let n: usize = if len > MAX_MSG_LEN as u64 { MAX_MSG_LEN } else { len as usize };
        let mut kbuf = [0u8; 256];
        if self.space.copyin_user(&mut kbuf, buf, n).is_err() {
            return SENTINEL;
        }
        let ghost msg = self.space.user_bytes(buf, n as nat);
        assert(kbuf@.take(n as int) =~= msg);
        proof {
            assert(self.endpoint_ok(ep as int));
        }
        let waiter = self.endpoints[ep].waiter;
        if waiter >= 0 {
            let wt = waiter as usize;
            let cap = self.tasks[wt].recv_cap;
            let wn: usize = if (n as u64) < cap { n } else { cap as usize };
            let rbuf = self.tasks[wt].recv_buf;
            if self.space.copyout_user(rbuf, &kbuf, wn).is_err() {
                assert(self.tasks == old(self).tasks);
                assert(self.endpoints == old(self).endpoints);
                assert(self.services == old(self).services);
                assert(self.shm == old(self).shm);
                assert(self.current == old(self).current);
                proof {
                    lemma_endpoints_ok_kept(self, old(self), -1);
                }
                return SENTINEL;
            }
            assert(kbuf@.take(wn as int) =~= msg.take(wn as int));
            let mut t = self.tasks[wt];
            t.saved_frame[SLOT_RAX] = wn as u64;
            t.state = TaskState::Ready;
            self.tasks.set(wt, t);
            let mut e = self.endpoints[ep];
            e.waiter = -1;
            self.endpoints.set(ep, e);
            proof {
                assert forall|x: int| 0 <= x < MAX_ENDPOINTS implies #[trigger] self.endpoint_ok(x) by {
                    assert(old(self).endpoint_ok(x));
                }
                assert(self.registry_ok());
                if old(self).blocked_are_waiting() {
                    assert forall|t: int|
                        0 <= t < self.tasks@.len() && #[trigger] self.tasks@[t].state
                            == TaskState::Blocked implies {
                        &&& self.tasks@[t].recv_ep < MAX_ENDPOINTS
                        &&& self.endpoints@[self.tasks@[t].recv_ep as int].waiter == t
                    } by {
                        assert(old(self).tasks@[t].state == TaskState::Blocked);
                    }
                }
            }
            return 0;
        }
        let mut e = self.endpoints[ep];
        e.msg_data = kbuf;
        e.msg_len = n;
        e.has_msg = true;
        self.endpoints.set(ep, e);
        proof {
            lemma_endpoints_ok_kept(self, old(self), ep as int);
            assert(self.registry_ok());
            if old(self).blocked_are_waiting() {
                assert forall|t: int|
                    0 <= t < self.tasks@.len() && #[trigger] self.tasks@[t].state
                        == TaskState::Blocked implies {
                    &&& self.tasks@[t].recv_ep < MAX_ENDPOINTS
                    &&& self.endpoints@[self.tasks@[t].recv_ep as int].waiter == t
                } by {
                    assert(old(self).tasks@[t].state == TaskState::Blocked);
                }
            }
        }
        0
    }
}

impl Kernel {
    /// Bytes a receive with capacity `cap` takes from the slot of `endpoint`.
    pub open spec fn taken_len(&self, endpoint: u64, cap: u64) -> u64 {
        at_most(self.ep(endpoint).msg_len as u64, cap)
    }

    /// The conditions under which `sys_ipc_recv` fails at once: a missing or
    /// inactive endpoint, an unwritable buffer, a message that cannot be
    /// copied out, or an empty endpoint that already has a waiter.
    pub open spec fn recv_fails(&self, endpoint: u64, buf: u64, cap: u64) -> bool {
        let e = self.ep(endpoint);
        ||| endpoint >= MAX_ENDPOINTS
        ||| !e.active
        ||| !crate::usermem::pages_ok(
            self.space.tables@,
            self.space.root,
            buf,
            at_most(cap, MAX_MSG_LEN as u64) as nat,
            true,
        )
        ||| (e.has_msg && !self.space.accessible(buf, self.taken_len(endpoint, cap) as nat, true))
        ||| (!e.has_msg && e.waiter >= 0)
    }

    /// Receives on `endpoint` into user buffer `buf` of capacity `cap`.  A
    /// buffered message is copied out (cut to `cap`), the slot is emptied and
    /// the length is returned in the frame.  Otherwise the caller blocks as
    /// the endpoint's waiter and the next ready task is installed in the
    /// frame; with none ready the kernel is deadlocked.  Failures return
    /// `SENTINEL` in the frame; a receive on an endpoint that another task
    /// already waits on is one, so that no blocked task is left unattached.
    pub fn sys_ipc_recv(&mut self, frame: &mut Frame, endpoint: u64, buf: u64, cap: u64) -> (r: Next)
        requires
            old(self).wf(),
            old(self).running(),
        ensures
            final(self).wf(),
            r == Next::Resume ==> final(self).running(),
            recv_done(*old(self), *final(self), *old(frame), *final(frame), endpoint, buf, cap, r),
    {
        if endpoint >= MAX_ENDPOINTS as u64 || !self.endpoints[endpoint as usize].active {
            frame[SLOT_RAX] = SENTINEL;
            return Next::Resume;
        }
        let ep = endpoint as usize;
        let cap_n: usize = if cap > MAX_MSG_LEN as u64 { MAX_MSG_LEN } else { cap as usize };
        if !crate::usermem::user_range_ok(buf, cap_n) || !self.space.user_pages_ok(
            buf,
            cap_n,
            crate::usermem::USER_PERM_WRITE,
        ) {
            proof {
                crate::usermem::lemma_perm_bits();
            }
            frame[SLOT_RAX] = SENTINEL;
            return Next::Resume;
        }
        proof {
            crate::usermem::lemma_perm_bits();
            assert(self.endpoint_ok(ep as int));
        }
        if self.endpoints[ep].has_msg {
            let e = self.endpoints[ep];
            let n: usize = if (e.msg_len as u64) < cap { e.msg_len } else { cap as usize };
            if self.space.copyout_user(buf, &e.msg_data, n).is_err() {
                assert(self.endpoints == old(self).endpoints);
                assert(self.tasks == old(self).tasks);
                proof {
                    lemma_endpoints_ok_kept(self, old(self), -1);
                }
                frame[SLOT_RAX] = SENTINEL;
                return Next::Resume;
            }
            assert(e.msg_data@.take(n as int) =~= e.msg().take(n as int));
            let mut e2 = e;
            e2.has_msg = false;
            self.endpoints.set(ep, e2);
            frame[SLOT_RAX] = n as u64;
            proof {
                assert(old(self).endpoint_ok(ep as int));
                lemma_endpoints_ok_kept(self, old(self), ep as int);
                if old(self).blocked_are_waiting() {
                    assert forall|t: int|
                        0 <= t < self.tasks@.len() && #[trigger] self.tasks@[t].state
                            == TaskState::Blocked implies {
                        &&& self.tasks@[t].recv_ep < MAX_ENDPOINTS
                        &&& self.endpoints@[self.tasks@[t].recv_ep as int].waiter == t
                    } by {
                        assert(old(self).tasks@[t].state == TaskState::Blocked);
                    }
                }
            }
            return Next::Resume;
        }
        if self.endpoints[ep].waiter >= 0 {
            frame[SLOT_RAX] = SENTINEL;
            return Next::Resume;
        }
        let cur = self.current;
        let mut t = self.tasks[cur];
        t.recv_ep = endpoint;
        t.recv_buf = buf;
        t.recv_cap = cap;
        t.saved_frame = *frame;
        t.state = TaskState::Blocked;
        self.tasks.set(cur, t);
        let mut e = self.endpoints[ep];
        e.waiter = cur as i32;
        self.endpoints.set(ep, e);
        let ghost mid = self.tasks@;
        let pick = self.find_ready(cur);
        assert(old(self).round_robin(cur as int, pick)) by {
            assert forall|i: int| #[trigger] eligible_in(old(self).tasks@, cur as int, i)
                == eligible_in(mid, cur as int, i) by {}
        }
        let r = match pick {
            Some(tid) => {
                self.switch_to(frame, tid);
                Next::Resume
            },
            None => Next::Deadlock,
        };
        proof {
            assert forall|x: int| 0 <= x < MAX_ENDPOINTS implies #[trigger] self.endpoint_ok(x) by {
                assert(old(self).endpoint_ok(x));
                if x != ep {
                    let w = old(self).endpoints@[x].waiter;
                    if w >= 0 {
                        assert(w != cur);
                    }
                }
            }
            if old(self).blocked_are_waiting() {
                assert forall|t: int|
                    0 <= t < self.tasks@.len() && #[trigger] self.tasks@[t].state
                        == TaskState::Blocked implies {
                    &&& self.tasks@[t].recv_ep < MAX_ENDPOINTS
                    &&& self.endpoints@[self.tasks@[t].recv_ep as int].waiter == t
                } by {
                    if t != cur {
                        assert(old(self).tasks@[t].state == TaskState::Blocked);
                    }
                }
            }
        }
        r
    }
}

/// Whether `a[..alen]` and `b[..blen]` hold the same bytes.
fn names_equal(a: &[u8; 16], alen: usize, b: &[u8; 16], blen: usize) -> (r: bool)
    requires
        alen <= 16,
        blen <= 16,
    ensures
        r == (a@.take(alen as int) == b@.take(blen as int)),
{
    if alen != blen {
        assert(a@.take(alen as int).len() != b@.take(blen as int).len());
        return false;
    }
    let mut i: usize = 0;
    while i < alen
        invariant
            i <= alen == blen <= 16,
            forall|j: int| 0 <= j < i ==> a@[j] == b@[j],
        decreases alen - i,
    {
        if a[i] != b[i] {
            assert(a@.take(alen as int)[i as int] != b@.take(blen as int)[i as int]);
            return false;
        }
        i = i + 1;
    }
    assert(a@.take(alen as int) =~= b@.take(blen as int));
    true
}

impl Kernel {
    /// Slot `i` is active and registered under `name`.
    pub open spec fn has_name(&self, i: int, name: Seq<u8>) -> bool {
        self.services@[i].active && self.services@[i].name_view() == name
    }

    /// Some slot is registered under `name`.
    pub open spec fn name_registered(&self, name: Seq<u8>) -> bool {
        exists|i: int| 0 <= i < MAX_SERVICES && #[trigger] self.has_name(i, name)
    }

    /// Some registry slot is free.
    pub open spec fn registry_has_room(&self) -> bool {
        exists|i: int| 0 <= i < MAX_SERVICES && !(#[trigger] self.services@[i].active)
    }

    /// The name a registry call reads: `name_len` bytes at `name_ptr`.
    pub open spec fn svc_name(&self, name_ptr: u64, name_len: u64) -> Seq<u8> {
        self.space.user_bytes(name_ptr, name_len as nat)
    }

    /// A registry call can read its name argument.
    pub open spec fn svc_name_ok(&self, name_ptr: u64, name_len: u64) -> bool {
        &&& 1 <= name_len <= MAX_SERVICE_NAME
        &&& self.space.accessible(name_ptr, name_len as nat, false)
    }

    /// Copies a service name from user memory.
    fn copyin_name(&self, name_ptr: u64, name_len: u64) -> (r: Option<[u8; 16]>)
        ensures
            r is Some <==> self.svc_name_ok(name_ptr, name_len),
            r is Some ==> r.unwrap()@.take(name_len as int) == self.svc_name(name_ptr, name_len),
    {
        if name_len == 0 || name_len > MAX_SERVICE_NAME as u64 {
            return None;
        }
        let n = name_len as usize;
        let mut name = [0u8; 16];
        if self.space.copyin_user(&mut name, name_ptr, n).is_err() {
            return None;
        }
        assert(name@.take(n as int) =~= self.svc_name(name_ptr, name_len));
        Some(name)
    }

    /// Binds the `name_len`-byte name at `name_ptr` to `endpoint`.  An
    /// active entry with that name gets the new endpoint; otherwise the first
    /// free slot takes the name.  Returns 0, or `SENTINEL` for a name of bad
    /// length or unreadable memory, or when the registry is full.
    pub fn sys_svc_register(&mut self, name_ptr: u64, name_len: u64, endpoint: u64) -> (r: u64)
        requires
            old(self).wf(),
        ensures
            final(self).wf(),
            register_done(*old(self), *final(self), name_ptr, name_len, endpoint, r),
    {
        let name = match self.copyin_name(name_ptr, name_len) {
            Some(nm) => nm,
            None => {
                return SENTINEL;
            },
        };
        let n = name_len as usize;
        let ghost nm = self.svc_name(name_ptr, name_len);
        let mut i: usize = 0;
        while i < MAX_SERVICES
            invariant
                self == old(self),
                self.wf(),
                n == name_len,
                1 <= n <= 16,
                name@.take(n as int) == nm,
                nm == self.svc_name(name_ptr, name_len),
                self.svc_name_ok(name_ptr, name_len),
                forall|j: int| 0 <= j < i ==> !#[trigger] self.has_name(j, nm),
            decreases MAX_SERVICES - i,
        {
            let e = self.services[i];
            if e.active && e.name_len <= 16 && names_equal(&e.name, e.name_len, &name, n) {
                let mut e2 = e;
                e2.endpoint = endpoint;
                self.services.set(i, e2);
                proof {
                    assert(old(self).has_name(i as int, nm));
                    assert forall|k: int|
                        0 <= k < MAX_SERVICES && #[trigger] old(self).has_name(k, nm) implies k
                        == i by {
                        if k != i {
                            assert(old(self).services@[k].name_view() != old(self).services@[i as int].name_view());
                        }
                    }
                    assert(self.services@[i as int].name_view() == e.name_view());
                    assert(self.registry_ok()) by {
                        assert forall|a: int| 0 <= a < MAX_SERVICES implies #[trigger] self.services@[a].name_view()
                            == old(self).services@[a].name_view() && self.services@[a].active
                            == old(self).services@[a].active by {}
                    }
                    lemma_wf_registry_change(self, old(self));
                    assert(old(self).name_registered(nm));
                }
                return 0;
            }
            proof {
                assert(e.active ==> e.name_len <= 16);
            }
            i = i + 1;
        }
        assert(!self.name_registered(nm));
        let mut i: usize = 0;
        while i < MAX_SERVICES
            invariant
                self == old(self),
                self.wf(),
                n == name_len,
                1 <= n <= 16,
                name@.take(n as int) == nm,
                nm == self.svc_name(name_ptr, name_len),
                self.svc_name_ok(name_ptr, name_len),
                !self.name_registered(nm),
                forall|j: int| 0 <= j < i ==> #[trigger] self.services@[j].active,
            decreases MAX_SERVICES - i,
        {
            if !self.services[i].active {
                let e = ServiceEntry { active: true, name: name, name_len: n, endpoint: endpoint };
                self.services.set(i, e);
                proof {
                    assert(self.has_name(i as int, nm));
                    assert(self.services@ == old(self).services@.update(i as int, self.services@[i as int]));
                    assert forall|a: int, b: int|
                        0 <= a < MAX_SERVICES && 0 <= b < MAX_SERVICES && a != b
                            && #[trigger] self.services@[a].active && #[trigger] self.services@[b].active
                            implies self.services@[a].name_view() != self.services@[b].name_view() by {
                        if a == i {
                            assert(!old(self).has_name(b, nm));
                        } else if b == i {
                            assert(!old(self).has_name(a, nm));
                        }
                    }
                    lemma_wf_registry_change(self, old(self));
                    assert(!old(self).services@[i as int].active);
                    assert(old(self).registry_has_room());
                }
                return 0;
            }
            i = i + 1;
        }
        assert(!self.registry_has_room());
        SENTINEL
    }

    /// Looks up the `name_len`-byte name at `name_ptr`; returns its endpoint,
    /// or `SENTINEL` when the name is unreadable or not registered.
    pub fn sys_svc_lookup(&self, name_ptr: u64, name_len: u64) -> (r: u64)
        requires
            self.wf(),
        ensures
            lookup_done(*self, name_ptr, name_len, r),
    {
        let name = match self.copyin_name(name_ptr, name_len) {
            Some(nm) => nm,
            None => {
                return SENTINEL;
            },
        };
        let n = name_len as usize;
        let ghost nm = self.svc_name(name_ptr, name_len);
        let mut i: usize = 0;
        while i < MAX_SERVICES
            invariant
                self.wf(),
                n == name_len,
                1 <= n <= 16,
                name@.take(n as int) == nm,
                nm == self.svc_name(name_ptr, name_len),
                self.svc_name_ok(name_ptr, name_len),
                forall|j: int| 0 <= j < i ==> !#[trigger] self.has_name(j, nm),
            decreases MAX_SERVICES - i,
        {
            let e = self.services[i];
            if e.active && e.name_len <= 16 && names_equal(&e.name, e.name_len, &name, n) {
                proof {
                    assert(self.has_name(i as int, nm));
                    assert forall|k: int|
                        0 <= k < MAX_SERVICES && #[trigger] self.has_name(k, nm) implies k == i by {
                        if k != i {
                            assert(self.services@[k].name_view() != self.services@[i as int].name_view());
                        }
                    }
                    assert(self.name_registered(nm));
                }
                return e.endpoint;
            }
            proof {
                assert(e.active ==> e.name_len <= 16);
            }
            i = i + 1;
        }
        SENTINEL
    }
}

/// Endpoint well-formedness carries over to a state whose endpoints keep
/// their waiters and bounded slots, and whose blocked tasks stay blocked on
/// the same endpoint.
proof fn lemma_endpoints_ok_kept(k: &Kernel, prev: &Kernel, changed: int)
    requires
        prev.wf(),
        k.tasks@.len() == prev.tasks@.len(),
        k.endpoints@.len() == MAX_ENDPOINTS,
        forall|e: int|
            0 <= e < MAX_ENDPOINTS && e != changed ==> #[trigger] k.endpoints@[e]
                == prev.endpoints@[e],
        0 <= changed < MAX_ENDPOINTS ==> {
            &&& k.endpoints@[changed].waiter == prev.endpoints@[changed].waiter
            &&& k.endpoints@[changed].msg_len <= MAX_MSG_LEN
            &&& (k.endpoints@[changed].has_msg ==> k.endpoints@[changed].waiter == -1)
        },
        forall|i: int|
            0 <= i < prev.tasks@.len() && #[trigger] prev.tasks@[i].state == TaskState::Blocked ==> {
                &&& k.tasks@[i].state == TaskState::Blocked
                &&& k.tasks@[i].recv_ep == prev.tasks@[i].recv_ep
            },
    ensures
        forall|e: int| 0 <= e < MAX_ENDPOINTS ==> #[trigger] k.endpoint_ok(e),
{
    assert forall|e: int| 0 <= e < MAX_ENDPOINTS implies #[trigger] k.endpoint_ok(e) by {
        assert(prev.endpoint_ok(e));
    }
}

/// A change confined to the registry that keeps it well formed keeps the
/// whole state well formed.
proof fn lemma_wf_registry_change(k: &Kernel, prev: &Kernel)
    requires
        prev.wf(),
        k.tasks == prev.tasks,
        k.current == prev.current,
        k.endpoints == prev.endpoints,
        k.shm == prev.shm,
        k.services@.len() == MAX_SERVICES,
        k.registry_ok(),
    ensures
        k.wf(),
{
    lemma_endpoints_ok_kept(k, prev, -1);
}

/// Active registry entries have pairwise distinct names, in every state the
/// handlers keep.
pub proof fn lemma_registry_names_distinct(k: &Kernel, i: int, j: int)
    requires
        k.wf(),
        0 <= i < MAX_SERVICES,
        0 <= j < MAX_SERVICES,
        i != j,
    ensures
        !k.services@[i].active || !k.services@[j].active || k.services@[i].name_view()
            != k.services@[j].name_view(),
{
}

/// The word index of the page-table entry for `va`, when the PML4, PDPT
/// and PD entries on its way are present and the entry lies in the store.
pub open spec fn pte_slot(tables: Seq<u64>, root: u64, va: u64) -> Option<int> {
    let e4 = entry_at(tables, root, table_index(va, 39));
    let e3 = entry_at(tables, e4, table_index(va, 30));
    let e2 = entry_at(tables, e3, table_index(va, 21));
    let w = (e2 & PTE_ADDR_MASK) / 8 + table_index(va, 12);
    if e4 & PTE_PRESENT == 0 || e3 & PTE_PRESENT == 0 || e2 & PTE_PRESENT == 0 || w
        >= tables.len() {
        None
    } else {
        Some(w as int)
    }
}

impl Kernel {
    /// The first inactive shared-memory object, if any.
    pub open spec fn first_free_shm(&self, i: int) -> bool {
        &&& 0 <= i < MAX_SHM
        &&& !self.shm@[i].active
        &&& forall|j: int| 0 <= j < i ==> #[trigger] self.shm@[j].active
    }

    /// Allocates a shared-memory object of `size` bytes (1 to 4096): the
    /// first free object becomes active with a zeroed page.  Returns its
    /// handle, or `SENTINEL` for a bad size or a full pool.
    pub fn sys_shm_create(&mut self, size: u64) -> (r: u64)
        requires
            old(self).wf(),
        ensures
            final(self).wf(),
            shm_create_done(*old(self), *final(self), size, r),
    {
        if size == 0 || size > SHM_PAGE_SIZE {
            return SENTINEL;
        }
        let mut i: usize = 0;
        while i < MAX_SHM
            invariant
                self == old(self),
                self.wf(),
                0 < size <= SHM_PAGE_SIZE,
                forall|j: int| 0 <= j < i ==> #[trigger] self.shm@[j].active,
            decreases MAX_SHM - i,
        {
            if !self.shm[i].active {
                let mut o = self.shm[i];
                o.active = true;
                o.size = SHM_PAGE_SIZE;
                self.shm.set(i, o);
                let phys = o.phys;
                let ghost f0 = self.space.frames@;
                let mut b: u64 = 0;
                while b < SHM_PAGE_SIZE
                    invariant
                        b <= SHM_PAGE_SIZE,
                        phys < PHYS_ADDR_LIMIT,
                        self.space.frames@.len() == f0.len(),
                        forall|x: int|
                            0 <= x < f0.len() ==> #[trigger] self.space.frames@[x] == if phys <= x
                                < phys + b {
                                0
                            } else {
                                f0[x]
                            },
                        self.tasks == old(self).tasks,
                        self.current == old(self).current,
                        self.endpoints == old(self).endpoints,
                        self.services == old(self).services,
                        i < MAX_SHM,
                        0 < size <= SHM_PAGE_SIZE,
                        old(self).shm@.len() == MAX_SHM,
                        !old(self).shm@[i as int].active,
                        self.shm@ == old(self).shm@.update(i as int, o),
                        self.space.tables@ == old(self).space.tables@,
                        self.space.root == old(self).space.root,
                    decreases SHM_PAGE_SIZE - b,
                {
                    let p = phys + b;
                    if p < self.space.frames.len() as u64 {
                        self.space.frames.set(p as usize, 0);
                    }
                    b = b + 1;
                }
                proof {
                    lemma_endpoints_ok_kept(self, old(self), -1);
                    assert(old(self).first_free_shm(i as int));
                    assert(!old(self).shm@[i as int].active);
                    assert(i as u64 != SENTINEL);
                }
                return i as u64;
            }
            i = i + 1;
        }
        SENTINEL
    }

    /// Maps shared-memory object `handle` at the page-aligned user address
    /// `addr_hint`: the page-table entry there is set to the object's page
    /// with Present, Writable and User (the flags argument is not used).
    /// Returns the address, or `SENTINEL` for a bad handle or address, or
    /// when the tables on the way are not present.
    pub fn sys_shm_map(&mut self, handle: u64, addr_hint: u64, _flags: u64) -> (r: u64)
        requires
            old(self).wf(),
        ensures
            final(self).wf(),
            shm_map_done(*old(self), *final(self), handle, addr_hint, r),
    {
        if handle >= MAX_SHM as u64 {
            return SENTINEL;
        }
        let h = handle as usize;
        if !self.shm[h].active {
            return SENTINEL;
        }
        if addr_hint & 0xFFF != 0 {
            return SENTINEL;
        }
        if addr_hint >= crate::usermem::USER_VA_LIMIT {
            return SENTINEL;
        }
        let shm_phys = self.shm[h].phys;
        match self.space.pte_slot(addr_hint) {
            None => SENTINEL,
            Some(w) => {
                self.space.tables.set(w, shm_phys | SHM_PTE_FLAGS);
                proof {
                    lemma_endpoints_ok_kept(self, old(self), -1);
                }
                addr_hint
            },
        }
    }
}

/// Largest `debug_write`, in bytes.
pub const DEBUG_WRITE_MAX: u64 = 256;

/// The syscall numbers.
pub const SYS_DEBUG_WRITE: u64 = 0;
pub const SYS_YIELD: u64 = 3;
pub const SYS_SHM_CREATE: u64 = 6;
pub const SYS_SHM_MAP: u64 = 7;
pub const SYS_IPC_SEND: u64 = 8;
pub const SYS_IPC_RECV: u64 = 9;
pub const SYS_TIME_NOW: u64 = 10;
pub const SYS_SVC_REGISTER: u64 = 11;
pub const SYS_SVC_LOOKUP: u64 = 12;
pub const SYS_BLK_READ: u64 = 13;
pub const SYS_BLK_WRITE: u64 = 14;
pub const SYS_DEBUG_EXIT: u64 = 98;

/// Trap vectors the kernel handles.
pub const VEC_DIVIDE: u64 = 0;
pub const VEC_BREAKPOINT: u64 = 3;
pub const VEC_DOUBLE_FAULT: u64 = 8;
pub const VEC_GPF: u64 = 13;
pub const VEC_PAGE_FAULT: u64 = 14;
pub const VEC_TIMER: u64 = 32;
pub const VEC_SYSCALL: u64 = 128;

impl Kernel {
    /// A kernel with `num_tasks` unstarted task slots, every endpoint
    /// inactive, an empty registry, and shared-memory objects backed by the
    /// pages at `shm_phys`.
    pub fn new(num_tasks: usize, space: AddressSpace, shm_phys: [u64; 2]) -> (r: Kernel)
        requires
            1 <= num_tasks <= MAX_TASKS,
            shm_phys[0] < PHYS_ADDR_LIMIT,
            shm_phys[1] < PHYS_ADDR_LIMIT,
        ensures
            r.wf(),
            r.blocked_are_waiting(),
            r.tasks@.len() == num_tasks,
            forall|i: int| 0 <= i < num_tasks ==> #[trigger] r.tasks@[i].state == TaskState::Dead,
            r.current == 0,
            forall|e: int|
                0 <= e < MAX_ENDPOINTS ==> !#[trigger] r.endpoints@[e].active && !r.endpoints@[e].has_msg
                    && r.endpoints@[e].waiter == -1,
            forall|i: int| 0 <= i < MAX_SERVICES ==> !#[trigger] r.services@[i].active,
            forall|i: int| 0 <= i < MAX_SHM ==> !#[trigger] r.shm@[i].active,
            r.space == space,
            r.tick == 1,
    {
        let mut tasks: Vec<Task> = Vec::new();
        let mut i: usize = 0;
        while i < num_tasks
            invariant
                i <= num_tasks,
                tasks@.len() == i,
                forall|j: int| 0 <= j < i ==> #[trigger] tasks@[j].state == TaskState::Dead,
            decreases num_tasks - i,
        {
            tasks.push(Task::empty());
            i = i + 1;
        }
        let endpoints = vec![Endpoint::empty(), Endpoint::empty(), Endpoint::empty(), Endpoint::empty()];
        let services = vec![
            ServiceEntry::empty(),
            ServiceEntry::empty(),
            ServiceEntry::empty(),
            ServiceEntry::empty(),
        ];
        let shm = vec![
            ShmObject { active: false, size: 0, phys: shm_phys[0] },
            ShmObject { active: false, size: 0, phys: shm_phys[1] },
        ];
        let k = Kernel { tasks, current: 0, endpoints, services, shm, space, tick: 1 };
        assert forall|e: int| 0 <= e < MAX_ENDPOINTS implies #[trigger] k.endpoint_ok(e) by {}
        k
    }

    /// Prepares task `tid` to enter user mode at `code_va` with its stack
    /// at `stack_top`, and marks it ready.
    pub fn init_task(&mut self, tid: usize, code_va: u64, stack_top: u64)
        requires
            old(self).wf(),
            tid < old(self).tasks@.len(),
            old(self).tasks@[tid as int].state == TaskState::Dead,
        ensures
            final(self).wf(),
            old(self).blocked_are_waiting() ==> final(self).blocked_are_waiting(),
            final(self).tasks@ == old(self).tasks@.update(tid as int, final(self).tasks@[tid as int]),
            final(self).tasks@[tid as int].state == TaskState::Ready,
            final(self).tasks@[tid as int].saved_frame@ == Seq::new(
                FRAME_WORDS as nat,
                |i: int|
                    if i == SLOT_RIP {
                        code_va
                    } else if i == SLOT_CS {
                        USER_CS
                    } else if i == SLOT_RFLAGS {
                        USER_RFLAGS
                    } else if i == SLOT_RSP {
                        stack_top
                    } else if i == SLOT_SS {
                        USER_SS
                    } else {
                        0
                    },
            ),
            final(self).current == old(self).current,
            final(self).endpoints == old(self).endpoints,
            final(self).services == old(self).services,
            final(self).shm == old(self).shm,
            final(self).space == old(self).space,
            final(self).tick == old(self).tick,
    {
        let mut t = self.tasks[tid];
        let mut f = [0u64; 22];
        f[SLOT_RIP] = code_va;
        f[SLOT_CS] = USER_CS;
        f[SLOT_RFLAGS] = USER_RFLAGS;
        f[SLOT_RSP] = stack_top;
        f[SLOT_SS] = USER_SS;
        t.saved_frame = f;
        t.state = TaskState::Ready;
        self.tasks.set(tid, t);
        proof {
            assert(self.tasks@[tid as int].saved_frame@ =~= Seq::new(
                FRAME_WORDS as nat,
                |i: int|
                    if i == SLOT_RIP {
                        code_va
                    } else if i == SLOT_CS {
                        USER_CS
                    } else if i == SLOT_RFLAGS {
                        USER_RFLAGS
                    } else if i == SLOT_RSP {
                        stack_top
                    } else if i == SLOT_SS {
                        USER_SS
                    } else {
                        0
                    },
            ));
            self.lemma_endpoints_kept(old(self));
        }
    }

    /// Makes task `tid` the running task, as when the kernel first enters
    /// user mode.
    pub fn start(&mut self, tid: usize)
        requires
            old(self).wf(),
            tid < old(self).tasks@.len(),
            old(self).tasks@[tid as int].state != TaskState::Blocked,
            forall|i: int|
                0 <= i < old(self).tasks@.len() ==> #[trigger] old(self).tasks@[i].state
                    != TaskState::Running,
        ensures
            final(self).wf(),
            final(self).running(),
            final(self).current == tid,
            old(self).blocked_are_waiting() ==> final(self).blocked_are_waiting(),
            final(self).tasks@ == old(self).tasks@.update(
                tid as int,
                Task { state: TaskState::Running, ..old(self).tasks@[tid as int] },
            ),
            final(self).endpoints == old(self).endpoints,
            final(self).services == old(self).services,
            final(self).shm == old(self).shm,
            final(self).space == old(self).space,
            final(self).tick == old(self).tick,
    {
        self.set_state(tid, TaskState::Running);
        self.current = tid;
        proof {
            self.lemma_endpoints_kept(old(self));
        }
    }

    /// Opens endpoint `ep` for IPC.
    pub fn activate_endpoint(&mut self, ep: usize)
        requires
            old(self).wf(),
            ep < MAX_ENDPOINTS,
        ensures
            final(self).wf(),
            old(self).blocked_are_waiting() ==> final(self).blocked_are_waiting(),
            final(self).endpoints@ == old(self).endpoints@.update(
                ep as int,
                Endpoint { active: true, ..old(self).endpoints@[ep as int] },
            ),
            final(self).tasks == old(self).tasks,
            final(self).current == old(self).current,
            final(self).services == old(self).services,
            final(self).shm == old(self).shm,
            final(self).space == old(self).space,
            final(self).tick == old(self).tick,
    {
        let mut e = self.endpoints[ep];
        e.active = true;
        self.endpoints.set(ep, e);
        proof {
            assert(old(self).endpoint_ok(ep as int));
            lemma_endpoints_ok_kept(self, old(self), ep as int);
        }
    }

    /// Copies up to `DEBUG_WRITE_MAX` bytes from user address `buf` for the
    /// console.  Returns the count and the bytes, or `SENTINEL` and nothing
    /// when the memory is not readable.
    pub fn sys_debug_write(&self, buf: u64, len: u64) -> (r: (u64, std::vec::Vec<u8>))
        ensures
            ({
                let n = at_most(len, DEBUG_WRITE_MAX);
                if self.space.accessible(buf, n as nat, false) {
                    r.0 == n && r.1@ == self.space.user_bytes(buf, n as nat)
                } else {
                    r.0 == SENTINEL && r.1@.len() == 0
                }
            }),
    {
        let actual = if len > DEBUG_WRITE_MAX { DEBUG_WRITE_MAX } else { len };
        let n = actual as usize;
        let mut kbuf = [0u8; 256];
        if self.space.copyin_user(&mut kbuf, buf, n).is_err() {
            return (SENTINEL, std::vec::Vec::new());
        }
        let mut out: std::vec::Vec<u8> = std::vec::Vec::new();
        let mut i: usize = 0;
        while i < n
            invariant
                i <= n <= 256,
                out@ == kbuf@.take(i as int),
            decreases n - i,
        {
            out.push(kbuf[i]);
            i = i + 1;
            assert(out@ =~= kbuf@.take(i as int));
        }
        assert(kbuf@.take(n as int) =~= self.space.user_bytes(buf, n as nat));
        (actual, out)
    }

    /// The logical clock: returns the current tick and advances it.
    pub fn sys_time_now(&mut self) -> (r: u64)
        ensures
            time_now_done(*old(self), *final(self), r),
    {
        let t = self.tick;
        if self.tick < u64::MAX {
            self.tick = self.tick + 1;
        }
        t
    }

    /// Runs the syscall in the live frame: the number is in RAX, the
    /// arguments in RDI, RSI and RDX, and the result goes back to RAX.
    /// Bytes written with `debug_write` are appended to `console`.  Unknown
    /// numbers return `SENTINEL`.
    pub fn syscall_dispatch(&mut self, frame: &mut Frame, console: &mut std::vec::Vec<u8>) -> (r: Next)
        requires
            old(self).wf(),
            old(self).running(),
        ensures
            final(self).wf(),
            r == Next::Resume ==> final(self).running(),
            old(self).blocked_are_waiting() ==> final(self).blocked_are_waiting(),
            syscall_done(
                *old(self),
                *final(self),
                *old(frame),
                *final(frame),
                old(console)@,
                final(console)@,
                r,
            ),
    {
        let nr = frame[SLOT_RAX];
        let arg1 = frame[SLOT_RDI];
        let arg2 = frame[SLOT_RSI];
        let arg3 = frame[SLOT_RDX];
        if nr == SYS_DEBUG_EXIT {
            return Next::Exit(arg1 as u8);
        }
        if nr == SYS_DEBUG_WRITE {
            let (ret, bytes) = self.sys_debug_write(arg1, arg2);
            let ghost c0 = console@;
            let mut i: usize = 0;
            while i < bytes.len()
                invariant
                    i <= bytes@.len(),
                    console@ == c0 + bytes@.take(i as int),
                decreases bytes.len() - i,
            {
                console.push(bytes[i]);
                i = i + 1;
                assert(console@ =~= c0 + bytes@.take(i as int));
            }
            assert(bytes@.take(bytes@.len() as int) =~= bytes@);
            frame[SLOT_RAX] = ret;
            Next::Resume
        } else if nr == SYS_YIELD {
            self.yield_and_switch(frame)
        } else if nr == SYS_SHM_CREATE {
            frame[SLOT_RAX] = self.sys_shm_create(arg1);
            proof {
                self.lemma_running_kept(old(self));
            }
            Next::Resume
        } else if nr == SYS_SHM_MAP {
            frame[SLOT_RAX] = self.sys_shm_map(arg1, arg2, arg3);
            proof {
                self.lemma_running_kept(old(self));
            }
            Next::Resume
        } else if nr == SYS_IPC_SEND {
            frame[SLOT_RAX] = self.sys_ipc_send(arg1, arg2, arg3);
            Next::Resume
        } else if nr == SYS_IPC_RECV {
            self.sys_ipc_recv(frame, arg1, arg2, arg3)
        } else if nr == SYS_TIME_NOW {
            frame[SLOT_RAX] = self.sys_time_now();
            proof {
                self.lemma_running_kept(old(self));
                lemma_endpoints_ok_kept(self, old(self), -1);
            }
            Next::Resume
        } else if nr == SYS_SVC_REGISTER {
            frame[SLOT_RAX] = self.sys_svc_register(arg1, arg2, arg3);
            proof {
                self.lemma_running_kept(old(self));
            }
            Next::Resume
        } else if nr == SYS_SVC_LOOKUP {
            frame[SLOT_RAX] = self.sys_svc_lookup(arg1, arg2);
            Next::Resume
        } else if nr == SYS_BLK_READ {
            if self.sys_blk_read_begin(arg2, arg3) {
                Next::BlockRead { lba: arg1, buf: arg2, len: arg3 }
            } else {
                frame[SLOT_RAX] = SENTINEL;
                Next::Resume
            }
        } else if nr == SYS_BLK_WRITE {
            if self.sys_blk_write_begin(arg2, arg3).is_some() {
                Next::BlockWrite { lba: arg1, buf: arg2, len: arg3 }
            } else {
                frame[SLOT_RAX] = SENTINEL;
                Next::Resume
            }
        } else {
            frame[SLOT_RAX] = SENTINEL;
            Next::Resume
        }
    }

    /// The running task stays running when the task table and the current
    /// index are untouched.
    proof fn lemma_running_kept(&self, prev: &Kernel)
        requires
            prev.running(),
            self.tasks == prev.tasks,
            self.current == prev.current,
        ensures
            self.running(),
    {
    }
}

/// Every blocked task is the waiter of an endpoint whose slot is empty, in
/// every state where each blocked task waits on the endpoint it received on.
pub proof fn lemma_blocked_task_has_endpoint(k: &Kernel, t: int)
    requires
        k.wf(),
        k.blocked_are_waiting(),
        0 <= t < k.tasks@.len(),
        k.tasks@[t].state == TaskState::Blocked,
    ensures
        exists|e: int|
            0 <= e < MAX_ENDPOINTS && #[trigger] k.endpoints@[e].waiter == t && !k.endpoints@[e].has_msg,
{
    let e = k.tasks@[t].recv_ep as int;
    assert(k.endpoint_ok(e));
    assert(k.endpoints@[e].waiter == t);
}

/// No endpoint ever holds a buffered message and a waiter at once.
pub proof fn lemma_slot_and_waiter_exclusive(k: &Kernel, e: int)
    requires
        k.wf(),
        0 <= e < MAX_ENDPOINTS,
    ensures
        !(k.endpoints@[e].has_msg && k.endpoints@[e].waiter >= 0),
{
    assert(k.endpoint_ok(e));
}

impl Kernel {
    /// Routes a trap by the vector in the frame.  Faults from ring 3 end the
    /// current task; the same faults from ring 0, and vectors 0, 3 and 8, are
    /// fatal; vector 128 is a syscall; vector 32 is the timer; any other
    /// vector returns at once.
    pub fn trap_handler(&mut self, frame: &mut Frame, console: &mut std::vec::Vec<u8>) -> (r: Next)
        requires
            old(self).wf(),
            old(self).running(),
        ensures
            final(self).wf(),
            r == Next::Resume ==> final(self).running(),
            old(self).blocked_are_waiting() ==> final(self).blocked_are_waiting(),
            trap_done(
                *old(self),
                *final(self),
                *old(frame),
                *final(frame),
                old(console)@,
                final(console)@,
                r,
            ),
    {
        let vector = frame[SLOT_VECTOR];
        let error_code = frame[SLOT_ERROR];
        if vector == VEC_DIVIDE {
            Next::Fatal(Fatal::DivideError)
        } else if vector == VEC_BREAKPOINT {
            Next::Fatal(Fatal::Breakpoint)
        } else if vector == VEC_DOUBLE_FAULT {
            Next::Fatal(Fatal::DoubleFault)
        } else if vector == VEC_GPF || vector == VEC_PAGE_FAULT {
            if frame[SLOT_CS] & 3 == 3 {
                self.handle_user_fault(frame)
            } else if vector == VEC_GPF {
                Next::Fatal(Fatal::GeneralProtection(error_code))
            } else {
                Next::Fatal(Fatal::PageFault(error_code))
            }
        } else if vector == VEC_TIMER {
            Next::Timer
        } else if vector == VEC_SYSCALL {
            self.syscall_dispatch(frame, console)
        } else {
            Next::Resume
        }
    }
}

impl Kernel {
    /// A `blk_read` of `len` bytes into `buf` may go to the device.
    pub open spec fn blk_read_ok(&self, buf: u64, len: u64) -> bool {
        crate::virtio::blk_len_valid(len) && crate::usermem::pages_ok(
            self.space.tables@,
            self.space.root,
            buf,
            len as nat,
            true,
        )
    }

    /// First half of `blk_read(lba, buf, len)`: the length must be a
    /// positive multiple of 512 up to 4096 and the buffer writable.  When
    /// this holds the device reads the sectors and `sys_blk_read_end`
    /// finishes the call; otherwise the call returns `SENTINEL`.
    pub fn sys_blk_read_begin(&self, buf: u64, len: u64) -> (r: bool)
        ensures
            r == self.blk_read_ok(buf, len),
    {
        proof {
            crate::usermem::lemma_perm_bits();
        }
        if !crate::virtio::blk_len_ok(len) {
            return false;
        }
        let n = len as usize;
        crate::usermem::user_range_ok(buf, n) && self.space.user_pages_ok(
            buf,
            n,
            crate::usermem::USER_PERM_WRITE,
        )
    }

    /// Second half of `blk_read`: when the device succeeded, copies the
    /// first `len` bytes of `data` to `buf` and returns `len`; `SENTINEL` when
    /// the device failed or the copy does.
    pub fn sys_blk_read_end(&mut self, buf: u64, len: u64, device_ok: bool, data: &[u8]) -> (r: u64)
        requires
            crate::virtio::blk_len_valid(len),
            len <= data@.len(),
        ensures
            r == len || r == SENTINEL,
            r == len <==> device_ok && old(self).space.accessible(buf, len as nat, true),
            r == len ==> final(self).space.frames@ == old(self).space.frames_after_write(
                buf,
                data@.take(len as int),
            ),
            r == SENTINEL ==> final(self).space.frames@ == old(self).space.frames@,
            final(self).space.tables@ == old(self).space.tables@,
            final(self).space.root == old(self).space.root,
            final(self).tasks == old(self).tasks,
            final(self).current == old(self).current,
            final(self).endpoints == old(self).endpoints,
            final(self).services == old(self).services,
            final(self).shm == old(self).shm,
    {
        if !device_ok {
            return SENTINEL;
        }
        if self.space.copyout_user(buf, data, len as usize).is_err() {
            return SENTINEL;
        }
        len
    }

    /// First half of `blk_write(lba, buf, len)`: checks the length and
    /// copies the bytes to write from `buf`; `None` means the call returns
    /// `SENTINEL`.
    pub fn sys_blk_write_begin(&self, buf: u64, len: u64) -> (r: Option<std::vec::Vec<u8>>)
        ensures
            r is Some <==> crate::virtio::blk_len_valid(len) && self.space.accessible(
                buf,
                len as nat,
                false,
            ),
            r is Some ==> r.unwrap()@ == self.space.user_bytes(buf, len as nat),
    {
        if !crate::virtio::blk_len_ok(len) {
            return None;
        }
        let n = len as usize;
        let mut data = [0u8; 4096];
        if self.space.copyin_user(&mut data, buf, n).is_err() {
            return None;
        }
        let mut out: std::vec::Vec<u8> = std::vec::Vec::new();
        let mut i: usize = 0;
        while i < n
            invariant
                i <= n <= 4096,
                out@ == data@.take(i as int),
            decreases n - i,
        {
            out.push(data[i]);
            i = i + 1;
            assert(out@ =~= data@.take(i as int));
        }
        assert(data@.take(n as int) =~= self.space.user_bytes(buf, n as nat));
        Some(out)
    }

    /// Second half of `blk_write`: `len` when the device succeeded, else
    /// `SENTINEL`.
    pub fn sys_blk_write_end(len: u64, device_ok: bool) -> (r: u64)
        ensures
            r == if device_ok { len } else { SENTINEL },
    {
        if device_ok {
            len
        } else {
            SENTINEL
        }
    }
}

/// `r` is the thread the cooperative kernel-thread scheduler switches to
/// from `cur`: searching round-robin from `cur + 1` over all `states`, the
/// first ready thread, unless that is `cur` itself; `None` means keep
/// running.
pub open spec fn thread_pick(states: Seq<TaskState>, cur: int, r: Option<usize>) -> bool {
    let n = states.len() as int;
    let ready = |i: int| states[i] == TaskState::Ready;
    match r {
        Some(j) => j != cur && exists|k: int|
            0 <= k < n && j == rr_index(cur, k, n) && ready(j as int) && forall|m: int|
                0 <= m < k ==> !ready(#[trigger] rr_index(cur, m, n)),
        None => forall|k: int|
            0 <= k < n && ready(#[trigger] rr_index(cur, k, n)) ==> exists|m: int|
                0 <= m <= k && rr_index(cur, m, n) == cur && ready(cur) && forall|p: int|
                    0 <= p < m ==> !ready(rr_index(cur, p, n)),
    }
}

/// The thread the cooperative kernel-thread scheduler switches to from
/// `cur`, as `thread_pick` says.
pub fn pick_next_thread(states: &[TaskState], cur: usize) -> (r: Option<usize>)
    requires
        cur < states@.len(),
    ensures
        thread_pick(states@, cur as int, r),
{
    let n = states.len();
    let mut i: usize = (cur + 1) % n;
    let mut step: usize = 0;
    while step < n
        invariant
            n == states@.len(),
            cur < n,
            step <= n,
            i < n,
            i as int == rr_index(cur as int, step as int, n as int),
            forall|m: int|
                0 <= m < step ==> states@[#[trigger] rr_index(cur as int, m, n as int)]
                    != TaskState::Ready,
        decreases n - step,
    {
        if states[i] == TaskState::Ready {
            if i == cur {
                proof {
                    assert forall|k: int|
                        0 <= k < n && states@[#[trigger] rr_index(cur as int, k, n as int)]
                            == TaskState::Ready implies exists|m: int|
                        0 <= m <= k && rr_index(cur as int, m, n as int) == cur
                            && states@[cur as int] == TaskState::Ready && forall|p: int|
                            0 <= p < m ==> states@[rr_index(cur as int, p, n as int)]
                                != TaskState::Ready by {
                        assert(k >= step);
                        assert(rr_index(cur as int, step as int, n as int) == cur);
                    }
                }
                return None;
            }
            return Some(i);
        }
        proof {
            lemma_rr_step(cur + 1 + step, n as int);
        }
        i = if i + 1 == n { 0 } else { i + 1 };
        step = step + 1;
    }
    None
}

/// The effect of `yield_and_switch`.
pub open spec fn yield_done(k0: Kernel, k1: Kernel, f0: Frame, f1: Frame, r: Next) -> bool {
    &&& (r == Next::Resume)
    &&& (k0.blocked_are_waiting() ==> k1.blocked_are_waiting())
    &&& (({
            let cur = k0.current as int;
            let saved = f0@.update(SLOT_RAX as int, 0);
            exists|pick: Option<usize>|
                #[trigger] k0.round_robin(cur, pick) && match pick {
                    Some(j) => {
                        &&& f1 == k0.tasks@[j as int].saved_frame
                        &&& k1.current == j
                        &&& k1.tasks@[cur].saved_frame@ == saved
                        &&& k1.tasks@ == k0.tasks@.update(
                            cur,
                            Task {
                                state: TaskState::Ready,
                                saved_frame: k1.tasks@[cur].saved_frame,
                                ..k0.tasks@[cur]
                            },
                        ).update(j as int, Task { state: TaskState::Running, ..k0.tasks@[j as int] })
                    },
                    None => {
                        &&& f1@ == saved
                        &&& k1.current == cur
                        &&& k1.tasks@[cur].saved_frame@ == saved
                        &&& k1.tasks@ == k0.tasks@.update(
                            cur,
                            Task { saved_frame: k1.tasks@[cur].saved_frame, ..k0.tasks@[cur] },
                        )
                    },
                }
        }))
    &&& (k1.endpoints == k0.endpoints)
    &&& (k1.services == k0.services)
    &&& (k1.space == k0.space)
}

/// The effect of `handle_user_fault`.
pub open spec fn fault_done(k0: Kernel, k1: Kernel, f0: Frame, f1: Frame, r: Next) -> bool {
    &&& (k0.blocked_are_waiting() ==> k1.blocked_are_waiting())
    &&& (k1.tasks@[k0.current as int].state == TaskState::Dead)
    &&& (({
            let cur = k0.current as int;
            exists|pick: Option<usize>|
                #[trigger] k0.round_robin(cur, pick) && match pick {
                    Some(j) => {
                        &&& r == Next::Resume
                        &&& f1 == k0.tasks@[j as int].saved_frame
                        &&& k1.current == j
                        &&& k1.running()
                        &&& k1.tasks@ == k0.tasks@.update(
                            cur,
                            Task { state: TaskState::Dead, ..k0.tasks@[cur] },
                        ).update(j as int, Task { state: TaskState::Running, ..k0.tasks@[j as int] })
                    },
                    None => {
                        &&& r == Next::AllDone
                        &&& f1 == f0
                        &&& k1.current == k0.current
                        &&& k1.tasks@ == k0.tasks@.update(
                            cur,
                            Task { state: TaskState::Dead, ..k0.tasks@[cur] },
                        )
                    },
                }
        }))
    &&& (k1.endpoints == k0.endpoints)
    &&& (k1.services == k0.services)
    &&& (k1.space == k0.space)
}

/// The effect of `sys_ipc_send`.
pub open spec fn send_done(k0: Kernel, k1: Kernel, endpoint: u64, buf: u64, len: u64, r: u64) -> bool {
    &&& (k1.tick == k0.tick)
    &&& (k0.blocked_are_waiting() ==> k1.blocked_are_waiting())
    &&& (r == SENTINEL <==> k0.send_fails(endpoint, buf, len))
    &&& (r != SENTINEL ==> r == 0)
    &&& (r == SENTINEL ==> k1.tasks == k0.tasks && k1.endpoints
            == k0.endpoints && k1.space.frames@ == k0.space.frames@)
    &&& (k1.current == k0.current)
    &&& (k1.services == k0.services)
    &&& (k1.shm == k0.shm)
    &&& (k1.space.tables@ == k0.space.tables@)
    &&& (k1.space.root == k0.space.root)
    &&& (({
            let e = k0.ep(endpoint);
            let w = e.waiter as int;
            let n = Kernel::send_len(len);
            let msg = k0.space.user_bytes(buf, n as nat);
            r == 0 && w >= 0 ==> {
                let wn = k0.delivered_len(endpoint, len);
                &&& k1.endpoints@ == k0.endpoints@.update(
                    endpoint as int,
                    Endpoint { waiter: -1i32, ..e },
                )
                &&& !k1.ep(endpoint).has_msg
                &&& k1.tasks@[w].state == TaskState::Ready
                &&& k1.tasks@[w].saved_frame[SLOT_RAX as int] == wn
                &&& k1.tasks@[w].saved_frame@ == k0.tasks@[w].saved_frame@.update(SLOT_RAX as int, wn)
                &&& k1.tasks@ == k0.tasks@.update(
                    w,
                    Task {
                        state: TaskState::Ready,
                        saved_frame: k1.tasks@[w].saved_frame,
                        ..k0.tasks@[w]
                    },
                )
                &&& k1.space.frames@ == k0.space.frames_after_write(
                    k0.tasks@[w].recv_buf,
                    msg.take(wn as int),
                )
            }
        }))
    &&& (({
            let e = k0.ep(endpoint);
            let n = Kernel::send_len(len);
            r == 0 && e.waiter < 0 ==> {
                &&& k1.endpoints@ == k0.endpoints@.update(
                    endpoint as int,
                    k1.ep(endpoint),
                )
                &&& k1.ep(endpoint).active
                &&& k1.ep(endpoint).waiter == -1
                &&& k1.ep(endpoint).has_msg
                &&& k1.ep(endpoint).msg() == k0.space.user_bytes(buf, n as nat)
                &&& k1.tasks == k0.tasks
                &&& k1.space.frames@ == k0.space.frames@
            }
        }))
}

/// The effect of `sys_ipc_recv`.
pub open spec fn recv_done(k0: Kernel, k1: Kernel, f0: Frame, f1: Frame, endpoint: u64, buf: u64, cap: u64, r: Next) -> bool {
    &&& (k1.tick == k0.tick)
    &&& (k0.blocked_are_waiting() ==> k1.blocked_are_waiting())
    &&& (k1.services == k0.services)
    &&& (k1.shm == k0.shm)
    &&& (k1.space.tables@ == k0.space.tables@)
    &&& (k1.space.root == k0.space.root)
    &&& (k0.recv_fails(endpoint, buf, cap) ==> {
            &&& r == Next::Resume
            &&& f1@ == f0@.update(SLOT_RAX as int, SENTINEL)
            &&& k1.tasks == k0.tasks
            &&& k1.endpoints == k0.endpoints
            &&& k1.space.frames@ == k0.space.frames@
            &&& k1.current == k0.current
        })
    &&& (!k0.recv_fails(endpoint, buf, cap) && k0.ep(endpoint).has_msg ==> {
            let n = k0.taken_len(endpoint, cap);
            &&& r == Next::Resume
            &&& f1@ == f0@.update(SLOT_RAX as int, n)
            &&& k1.endpoints@ == k0.endpoints@.update(
                endpoint as int,
                Endpoint { has_msg: false, ..k0.ep(endpoint) },
            )
            &&& k1.space.frames@ == k0.space.frames_after_write(
                buf,
                k0.ep(endpoint).msg().take(n as int),
            )
            &&& k1.tasks == k0.tasks
            &&& k1.current == k0.current
        })
    &&& (!k0.recv_fails(endpoint, buf, cap) && !k0.ep(endpoint).has_msg ==> {
            let cur = k0.current as int;
            &&& k1.tasks@[cur].state == TaskState::Blocked
            &&& k1.tasks@[cur].saved_frame == f0
            &&& k1.tasks@[cur].recv_ep == endpoint
            &&& k1.tasks@[cur].recv_buf == buf
            &&& k1.tasks@[cur].recv_cap == cap
            &&& k1.endpoints@ == k0.endpoints@.update(
                endpoint as int,
                Endpoint { waiter: cur as i32, ..k0.ep(endpoint) },
            )
            &&& k1.space.frames@ == k0.space.frames@
            &&& k1.tasks@[cur] == Task {
                saved_frame: f0,
                state: TaskState::Blocked,
                recv_ep: endpoint,
                recv_buf: buf,
                recv_cap: cap,
            }
            &&& exists|pick: Option<usize>|
                #[trigger] k0.round_robin(cur, pick) && match pick {
                    Some(j) => {
                        &&& r == Next::Resume
                        &&& f1 == k0.tasks@[j as int].saved_frame
                        &&& k1.current == j
                        &&& k1.tasks@ == k0.tasks@.update(
                            cur,
                            k1.tasks@[cur],
                        ).update(j as int, Task { state: TaskState::Running, ..k0.tasks@[j as int] })
                    },
                    None => {
                        &&& r == Next::Deadlock
                        &&& k1.current == k0.current
                        &&& k1.tasks@ == k0.tasks@.update(cur, k1.tasks@[cur])
                    },
                }
        })
}

/// The effect of `sys_svc_register`.
pub open spec fn register_done(k0: Kernel, k1: Kernel, name_ptr: u64, name_len: u64, endpoint: u64, r: u64) -> bool {
    &&& (k1.tasks == k0.tasks)
    &&& (k1.current == k0.current)
    &&& (k1.endpoints == k0.endpoints)
    &&& (k1.shm == k0.shm)
    &&& (k1.space == k0.space)
    &&& (k1.tick == k0.tick)
    &&& (r == SENTINEL <==> !k0.svc_name_ok(name_ptr, name_len) || (!k0.name_registered(
        k0.svc_name(name_ptr, name_len),
    ) && !k0.registry_has_room()))
    &&& (r != SENTINEL ==> r == 0)
    &&& (r == SENTINEL ==> k1.services == k0.services)
    &&& (({
            let name = k0.svc_name(name_ptr, name_len);
            r == 0 ==> forall|i: int|
                0 <= i < MAX_SERVICES && #[trigger] k0.has_name(i, name)
                    ==> k1.services@ == k0.services@.update(
                    i,
                    ServiceEntry { endpoint: endpoint, ..k0.services@[i] },
                )
        }))
    &&& (({
            let name = k0.svc_name(name_ptr, name_len);
            r == 0 && !k0.name_registered(name) ==> exists|i: int|
                0 <= i < MAX_SERVICES && !(#[trigger] k0.services@[i].active) && (forall|
                    j: int,
                | 0 <= j < i ==> k0.services@[j].active) && k1.services@
                    == k0.services@.update(i, k1.services@[i])
                    && k1.has_name(i, name) && k1.services@[i].endpoint
                    == endpoint
        }))
}

/// The result of `sys_svc_lookup`.
pub open spec fn lookup_done(k0: Kernel, name_ptr: u64, name_len: u64, r: u64) -> bool {
    &&& (!k0.svc_name_ok(name_ptr, name_len) || !k0.name_registered(
            k0.svc_name(name_ptr, name_len),
        ) ==> r == SENTINEL)
    &&& (forall|i: int|
            0 <= i < MAX_SERVICES && k0.svc_name_ok(name_ptr, name_len) && #[trigger] k0.has_name(
                i,
                k0.svc_name(name_ptr, name_len),
            ) ==> r == k0.services@[i].endpoint)
}

/// The effect of `sys_shm_create`.
pub open spec fn shm_create_done(k0: Kernel, k1: Kernel, size: u64, r: u64) -> bool {
    &&& (k1.tasks == k0.tasks)
    &&& (k1.current == k0.current)
    &&& (k1.endpoints == k0.endpoints)
    &&& (k1.services == k0.services)
    &&& (k1.space.tables@ == k0.space.tables@)
    &&& (k1.space.root == k0.space.root)
    &&& (r == SENTINEL <==> size == 0 || size > SHM_PAGE_SIZE || forall|j: int|
            0 <= j < MAX_SHM ==> #[trigger] k0.shm@[j].active)
    &&& (r == SENTINEL ==> k1.shm == k0.shm && k1.space.frames@
            == k0.space.frames@)
    &&& (r != SENTINEL ==> {
            let h = r as int;
            let p = k0.shm@[h].phys as int;
            &&& k0.first_free_shm(h)
            &&& k1.shm@ == k0.shm@.update(
                h,
                ShmObject { active: true, size: SHM_PAGE_SIZE, phys: k0.shm@[h].phys },
            )
            &&& k1.space.frames@.len() == k0.space.frames@.len()
            &&& forall|x: int|
                0 <= x < k0.space.frames@.len()
                    ==> #[trigger] k1.space.frames@[x] == if p <= x < p + SHM_PAGE_SIZE {
                    0
                } else {
                    k0.space.frames@[x]
                }
        })
}

/// The effect of `sys_shm_map`.
pub open spec fn shm_map_done(k0: Kernel, k1: Kernel, handle: u64, addr_hint: u64, r: u64) -> bool {
    &&& (k1.tasks == k0.tasks)
    &&& (k1.current == k0.current)
    &&& (k1.endpoints == k0.endpoints)
    &&& (k1.services == k0.services)
    &&& (k1.shm == k0.shm)
    &&& (k1.space.frames@ == k0.space.frames@)
    &&& (k1.space.root == k0.space.root)
    &&& (({
            let slot = pte_slot(k0.space.tables@, k0.space.root, addr_hint);
            r == SENTINEL <==> handle >= MAX_SHM || !k0.shm@[handle as int].active
                || addr_hint & 0xFFF != 0 || addr_hint >= crate::usermem::USER_VA_LIMIT
                || slot is None
        }))
    &&& (r == SENTINEL ==> k1.space.tables@ == k0.space.tables@)
    &&& (r != SENTINEL ==> {
            let slot = pte_slot(k0.space.tables@, k0.space.root, addr_hint);
            &&& r == addr_hint
            &&& k1.space.tables@ == k0.space.tables@.update(
                slot.unwrap(),
                k0.shm@[handle as int].phys | SHM_PTE_FLAGS,
            )
        })
}

/// The effect of `sys_time_now`.
pub open spec fn time_now_done(k0: Kernel, k1: Kernel, r: u64) -> bool {
    &&& (r == k0.tick)
    &&& (k1.tick == if k0.tick < u64::MAX {
            (k0.tick + 1) as u64
        } else {
            k0.tick
        })
    &&& (k1.tasks == k0.tasks)
    &&& (k1.current == k0.current)
    &&& (k1.endpoints == k0.endpoints)
    &&& (k1.services == k0.services)
    &&& (k1.shm == k0.shm)
    &&& (k1.space == k0.space)
}

/// The frame after a syscall that only sets its return value `v`.
pub open spec fn sets_rax(f0: Frame, f1: Frame, v: u64) -> bool {
    f1@ == f0@.update(SLOT_RAX as int, v)
}

/// The effect of `syscall_dispatch` for the syscall in frame `f0`, whose
/// number is in RAX and arguments in RDI, RSI and RDX; `c0` and `c1` are the
/// console bytes before and after.
pub open spec fn syscall_done(
    k0: Kernel,
    k1: Kernel,
    f0: Frame,
    f1: Frame,
    c0: Seq<u8>,
    c1: Seq<u8>,
    r: Next,
) -> bool {
    let nr = f0[SLOT_RAX as int];
    let a1 = f0[SLOT_RDI as int];
    let a2 = f0[SLOT_RSI as int];
    let a3 = f0[SLOT_RDX as int];
    let ret = f1[SLOT_RAX as int];
    &&& nr != SYS_DEBUG_WRITE ==> c1 == c0
    &&& nr == SYS_DEBUG_EXIT ==> r == Next::Exit(a1 as u8) && k1 == k0 && f1 == f0
    &&& nr == SYS_DEBUG_WRITE ==> {
        let n = at_most(a2, DEBUG_WRITE_MAX);
        &&& r == Next::Resume
        &&& k1 == k0
        &&& if k0.space.accessible(a1, n as nat, false) {
            sets_rax(f0, f1, n) && c1 == c0 + k0.space.user_bytes(a1, n as nat)
        } else {
            sets_rax(f0, f1, SENTINEL) && c1 == c0
        }
    }
    &&& nr == SYS_YIELD ==> yield_done(k0, k1, f0, f1, r)
    &&& nr == SYS_SHM_CREATE ==> r == Next::Resume && sets_rax(f0, f1, ret) && shm_create_done(
        k0,
        k1,
        a1,
        ret,
    )
    &&& nr == SYS_SHM_MAP ==> r == Next::Resume && sets_rax(f0, f1, ret) && shm_map_done(
        k0,
        k1,
        a1,
        a2,
        ret,
    )
    &&& nr == SYS_IPC_SEND ==> r == Next::Resume && sets_rax(f0, f1, ret) && send_done(
        k0,
        k1,
        a1,
        a2,
        a3,
        ret,
    )
    &&& nr == SYS_IPC_RECV ==> recv_done(k0, k1, f0, f1, a1, a2, a3, r)
    &&& nr == SYS_TIME_NOW ==> r == Next::Resume && sets_rax(f0, f1, ret) && time_now_done(
        k0,
        k1,
        ret,
    )
    &&& nr == SYS_SVC_REGISTER ==> r == Next::Resume && sets_rax(f0, f1, ret) && register_done(
        k0,
        k1,
        a1,
        a2,
        a3,
        ret,
    )
    &&& nr == SYS_SVC_LOOKUP ==> r == Next::Resume && k1 == k0 && sets_rax(f0, f1, ret)
        && lookup_done(k0, a1, a2, ret)
    &&& nr == SYS_BLK_READ ==> k1 == k0 && if k0.blk_read_ok(a2, a3) {
        r == (Next::BlockRead { lba: a1, buf: a2, len: a3 }) && f1 == f0
    } else {
        r == Next::Resume && sets_rax(f0, f1, SENTINEL)
    }
    &&& nr == SYS_BLK_WRITE ==> k1 == k0 && if crate::virtio::blk_len_valid(a3)
        && k0.space.accessible(a2, a3 as nat, false) {
        r == (Next::BlockWrite { lba: a1, buf: a2, len: a3 }) && f1 == f0
    } else {
        r == Next::Resume && sets_rax(f0, f1, SENTINEL)
    }
    &&& !(nr == SYS_DEBUG_WRITE || nr == SYS_YIELD || nr == SYS_SHM_CREATE || nr == SYS_SHM_MAP
        || nr == SYS_IPC_SEND || nr == SYS_IPC_RECV || nr == SYS_TIME_NOW || nr == SYS_SVC_REGISTER
        || nr == SYS_SVC_LOOKUP || nr == SYS_BLK_READ || nr == SYS_BLK_WRITE || nr
        == SYS_DEBUG_EXIT) ==> r == Next::Resume && sets_rax(f0, f1, SENTINEL) && k1 == k0
}

/// The effect of `trap_handler` for the trap whose frame is `f0`.
pub open spec fn trap_done(
    k0: Kernel,
    k1: Kernel,
    f0: Frame,
    f1: Frame,
    c0: Seq<u8>,
    c1: Seq<u8>,
    r: Next,
) -> bool {
    let v = f0[SLOT_VECTOR as int];
    let err = f0[SLOT_ERROR as int];
    let user = f0[SLOT_CS as int] & 3 == 3;
    let halts = k1 == k0 && f1 == f0 && c1 == c0;
    &&& v != VEC_SYSCALL ==> c1 == c0
    &&& v == VEC_DIVIDE ==> r == Next::Fatal(Fatal::DivideError) && halts
    &&& v == VEC_BREAKPOINT ==> r == Next::Fatal(Fatal::Breakpoint) && halts
    &&& v == VEC_DOUBLE_FAULT ==> r == Next::Fatal(Fatal::DoubleFault) && halts
    &&& v == VEC_GPF && !user ==> r == Next::Fatal(Fatal::GeneralProtection(err)) && halts
    &&& v == VEC_PAGE_FAULT && !user ==> r == Next::Fatal(Fatal::PageFault(err)) && halts
    &&& (v == VEC_GPF || v == VEC_PAGE_FAULT) && user ==> fault_done(k0, k1, f0, f1, r)
    &&& v == VEC_TIMER ==> r == Next::Timer && halts
    &&& v == VEC_SYSCALL ==> syscall_done(k0, k1, f0, f1, c0, c1, r)
    &&& !(v == VEC_DIVIDE || v == VEC_BREAKPOINT || v == VEC_DOUBLE_FAULT || v == VEC_GPF || v
        == VEC_PAGE_FAULT || v == VEC_TIMER || v == VEC_SYSCALL) ==> r == Next::Resume && halts
}

/// Number of kernel-thread slots.
pub const MAX_THREADS: usize = 4;

/// Tick at which the timer reports progress.
pub const TICK_REPORT: u64 = 100;

/// Tick at which the timer demo stops the VM.
pub const TICK_LIMIT: u64 = 400;

/// Switches the kernel threads `states[..count]` away from `cur`: the
/// thread `thread_pick` chooses becomes running, and `cur` becomes ready
/// unless it is blocked or dead.  Returns the chosen thread; with none the
/// states stay as they are.
pub fn schedule_threads(states: &mut [TaskState; 4], count: usize, cur: usize) -> (r: Option<usize>)
    requires
        cur < count <= MAX_THREADS,
    ensures
        thread_pick(old(states)@.take(count as int), cur as int, r),
        match r {
            Some(j) => final(states)@ == old(states)@.update(
                cur as int,
                if old(states)@[cur as int] == TaskState::Running {
                    TaskState::Ready
                } else {
                    old(states)@[cur as int]
                },
            ).update(j as int, TaskState::Running),
            None => final(states)@ == old(states)@,
        },
{
    let (live, _rest) = states.as_slice().split_at(count);
    assert(live@ =~= states@.take(count as int));
    let pick = pick_next_thread(live, cur);
    match pick {
        Some(j) => {
            if states[cur] == TaskState::Running {
                states[cur] = TaskState::Ready;
            }
            states[j] = TaskState::Running;
        },
        None => {},
    }
    pick
}

/// What a timer tick does: the new tick count, whether to report it, and
/// whether the demo is over.
pub fn timer_tick(ticks: u64) -> (r: (u64, bool, bool))
    ensures
        r.0 == if ticks < u64::MAX { (ticks + 1) as u64 } else { ticks },
        r.1 == (r.0 == TICK_REPORT),
        r.2 == (r.0 >= TICK_LIMIT),
{
    let t = if ticks < u64::MAX { ticks + 1 } else { ticks };
    (t, t == TICK_REPORT, t >= TICK_LIMIT)
}

} // verus!
