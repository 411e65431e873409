use vstd::prelude::*;

use crate::memory::{
    agrees, answer_of, lemma_agrees_push, lemma_agrees_suffix, mem_word, word_of, Answer, Memory, Progress,
    ReadRequest,
};
use crate::rtti::{rtti_model, wadd, RttiProbe};

verus! {

/// How a candidate child list is checked node by node.
#[derive(PartialEq, Eq, Structural, Clone, Copy)]
pub enum ListCheck {
    /// Every child's parent pointer must lead back to the instance.
    ParentLink,
    /// Every child must carry readable RTTI.
    Typed,
    /// Parent pointers are checked, nodes may be 8, 16, 24 or 32 bytes apart,
    /// the end marker need not be a pointer and one child is enough.
    Loose,
}

/// The most nodes a candidate list walk visits.
pub const MAX_LIST_NODES: usize = 500;

/// How many valid children a candidate list needs.
pub open spec fn threshold(mode: ListCheck) -> nat {
    if mode is Loose {
        1
    } else {
        2
    }
}

/// The node at `node` holds a child: a pointer of at least `0x10000` to an
/// object whose first word (its vtable) is at least `0x10000`, and which passes
/// the mode's check.
pub open spec fn node_ok(m: Memory, mode: ListCheck, addr: u64, parent_off: usize, node: u64) -> bool {
    match mem_word(m, node as int) {
        None => false,
        Some(child) => child >= 0x10000 && match mem_word(m, child as int) {
            None => false,
            Some(vt) => vt >= 0x10000 && match mode {
                ListCheck::Typed => rtti_model(m, child) is Some,
                _ => mem_word(m, wadd(child, parent_off as u64) as int) == Some(addr),
            },
        },
    }
}

/// The walk ends at the end marker, after 500 nodes, and (loosely) at a null
/// node or back at the list head.
pub open spec fn walk_stops(mode: ListCheck, head: u64, end: u64, n: u64, k: nat) -> bool {
    k >= 500 || n == end || (mode is Loose && (n == 0 || n == head))
}

/// The number of children met from node `n` (the `k`-th visited) to the end
/// of the walk, or `None` when a node fails its check.
pub open spec fn list_count(
    m: Memory,
    mode: ListCheck,
    addr: u64,
    parent_off: usize,
    head: u64,
    end: u64,
    stride: u64,
    n: u64,
    k: nat,
) -> Option<nat>
    decreases 500 - k,
{
    if walk_stops(mode, head, end, n, k) {
        Some(0)
    } else if !node_ok(m, mode, addr, parent_off, n) {
        None
    } else {
        match list_count(m, mode, addr, parent_off, head, end, stride, wadd(n, stride), k + 1) {
            Some(c) => Some(c + 1),
            None => None,
        }
    }
}

/// With `c` children already met, the walk from `n` succeeds.
pub open spec fn walk_ok(
    m: Memory,
    mode: ListCheck,
    addr: u64,
    parent_off: usize,
    head: u64,
    end: u64,
    stride: u64,
    c: nat,
    n: u64,
    k: nat,
) -> bool {
    match list_count(m, mode, addr, parent_off, head, end, stride, n, k) {
        Some(x) => c + x >= threshold(mode),
        None => false,
    }
}

/// The number of candidate slots: 96 list offsets, each with 4 end-marker
/// offsets (and, loosely, 4 node strides).
pub open spec fn slot_count(mode: ListCheck) -> nat {
    if mode is Loose {
        1536
    } else {
        384
    }
}

/// The list offset of slot `j` (a multiple of 8 below `0x300`).
pub open spec fn slot_start(mode: ListCheck, j: int) -> usize {
    if mode is Loose {
        ((j / 16) * 8) as usize
    } else {
        ((j / 4) * 8) as usize
    }
}

/// The end-marker offset of slot `j` (0, 8, 16 or 24).
pub open spec fn slot_end(j: int) -> usize {
    ((j % 4) * 8) as usize
}

pub open spec fn stride_of(i: int) -> u64 {
    if i == 0 {
        0x10
    } else if i == 1 {
        0x18
    } else if i == 2 {
        0x20
    } else {
        0x08
    }
}

/// The node stride of slot `j`.
pub open spec fn slot_stride(mode: ListCheck, j: int) -> u64 {
    if mode is Loose {
        stride_of((j / 4) % 4)
    } else {
        0x10
    }
}

/// The parent pointer's own slot is never taken for the child list.
pub open spec fn slot_skipped(mode: ListCheck, parent_off: usize, j: int) -> bool {
    !(mode is Typed) && slot_start(mode, j) == parent_off
}

pub open spec fn after_end_word(m: Memory, mode: ListCheck, addr: u64, parent_off: usize, j: int, head: u64, end: u64) -> bool {
    match mem_word(m, head as int) {
        None => false,
        Some(first) => first >= 0x10000 && walk_ok(m, mode, addr, parent_off, head, end, slot_stride(mode, j), 0, first, 0),
    }
}

pub open spec fn after_head_word(m: Memory, mode: ListCheck, addr: u64, parent_off: usize, j: int, head: u64) -> bool {
    match mem_word(m, wadd(head, slot_end(j) as u64) as int) {
        None => false,
        Some(end) => (mode is Loose || end >= 0x10000) && after_end_word(m, mode, addr, parent_off, j, head, end),
    }
}

/// Slot `j` holds the child list: the word at the slot is a list head of at
/// least `0x10000`, the end marker is the word at the head plus the end offset
/// (a pointer unless loosely checked), the first node is the word at the head
/// (a pointer), and the walk from the first node meets enough children and no
/// bad node.
pub open spec fn slot_ok(m: Memory, mode: ListCheck, addr: u64, parent_off: usize, j: int) -> bool {
    &&& !slot_skipped(mode, parent_off, j)
    &&& match mem_word(m, wadd(addr, slot_start(mode, j) as u64) as int) {
        None => false,
        Some(head) => head >= 0x10000 && after_head_word(m, mode, addr, parent_off, j, head),
    }
}

/// The list and end-marker offsets of the first slot from `j` on that holds
/// the child list of the instance at `addr`.
pub open spec fn list_search(m: Memory, mode: ListCheck, addr: u64, parent_off: usize, j: int) -> Option<(usize, usize)>
    decreases slot_count(mode) - j,
{
    if j < 0 || j >= slot_count(mode) {
        None
    } else if slot_ok(m, mode, addr, parent_off, j) {
        Some((slot_start(mode, j), slot_end(j)))
    } else {
        list_search(m, mode, addr, parent_off, j + 1)
    }
}

/// The search's result once slot `j` is known to hold the list (`ok`) or not.
pub open spec fn settle(m: Memory, mode: ListCheck, addr: u64, parent_off: usize, j: int, ok: bool) -> Option<(usize, usize)> {
    if ok {
        Some((slot_start(mode, j), slot_end(j)))
    } else {
        list_search(m, mode, addr, parent_off, j + 1)
    }
}

/// A child list found by the search sits at an 8-aligned offset below
/// `0x300`, never (unless checked by type) at the parent pointer's offset,
/// with its end marker at 0, 8, 16 or 24 bytes into the list record, and the
/// slot it came from holds the list.
pub proof fn law_list_slot_shape(m: Memory, mode: ListCheck, addr: u64, parent_off: usize, j: int)
    ensures
        list_search(m, mode, addr, parent_off, j) matches Some((cs, ce)) ==> {
            &&& cs % 8 == 0
            &&& cs < 0x300
            &&& ce % 8 == 0
            &&& ce < 0x20
            &&& !(mode is Typed) ==> cs != parent_off
            &&& exists|i: int| j <= i < slot_count(mode) && #[trigger] slot_ok(m, mode, addr, parent_off, i)
                && cs == slot_start(mode, i) && ce == slot_end(i)
        },
    decreases slot_count(mode) - j,
{
    if j < 0 || j >= slot_count(mode) {
    } else if slot_ok(m, mode, addr, parent_off, j) {
        if mode is Loose {
            assert(0 <= (j / 16) * 8 < 0x300 && ((j / 16) * 8) % 8 == 0) by (nonlinear_arith)
                requires
                    0 <= j < 1536,
            ;
        } else {
            assert(0 <= (j / 4) * 8 < 0x300 && ((j / 4) * 8) % 8 == 0) by (nonlinear_arith)
                requires
                    0 <= j < 384,
            ;
        }
        assert(0 <= (j % 4) * 8 < 0x20 && ((j % 4) * 8) % 8 == 0) by (nonlinear_arith)
            requires
                0 <= j,
        ;
    } else {
        law_list_slot_shape(m, mode, addr, parent_off, j + 1);
    }
}

pub enum ListStage {
    Head,
    End,
    First,
    Node,
    Vtable,
    Parent,
    Typed,
    Finished,
}

/// Searches an instance for the offsets of its child list (see `list_search`),
/// one memory read at a time.
pub struct ListProbe {
    mode: ListCheck,
    addr: u64,
    parent_off: usize,
    j: usize,
    stage: ListStage,
    head: u64,
    end: u64,
    n: u64,
    k: usize,
    count: usize,
    child: u64,
    probe: RttiProbe,
    pending: ReadRequest,
    prefix: Ghost<Seq<Answer>>,
    hist: Ghost<Seq<Answer>>,
}

impl ListProbe {
    pub closed spec fn history(&self) -> Seq<Answer> {
        self.hist@
    }

    pub closed spec fn pending(&self) -> ReadRequest {
        self.pending
    }

    pub closed spec fn awaiting(&self) -> bool {
        !(self.stage is Finished)
    }

    pub closed spec fn result_model(&self, m: Memory) -> Option<(usize, usize)> {
        list_search(m, self.mode, self.addr, self.parent_off, 0)
    }

    closed spec fn walk_here(&self, m: Memory) -> bool {
        walk_ok(
            m,
            self.mode,
            self.addr,
            self.parent_off,
            self.head,
            self.end,
            slot_stride(self.mode, self.j as int),
            self.count as nat,
            self.n,
            self.k as nat,
        )
    }

    closed spec fn rest_model(&self, m: Memory) -> Option<(usize, usize)> {
        let (mode, addr, po, j) = (self.mode, self.addr, self.parent_off, self.j as int);
        match self.stage {
            ListStage::Head => list_search(m, mode, addr, po, j),
            ListStage::End => settle(m, mode, addr, po, j, after_head_word(m, mode, addr, po, j, self.head)),
            ListStage::First => settle(m, mode, addr, po, j, after_end_word(m, mode, addr, po, j, self.head, self.end)),
            ListStage::Finished => None,
            _ => settle(m, mode, addr, po, j, self.walk_here(m)),
        }
    }

    closed spec fn walking(&self) -> bool {
        self.stage is Node || self.stage is Vtable || self.stage is Parent || self.stage is Typed
    }

    /// An upper bound on the reads the search still asks for: 3004 for each
    /// candidate slot left (three for the list record, six for each of at
    /// most 500 nodes), fewer within the current slot.
    pub closed spec fn reads_left(&self) -> nat {
        let slot_part = (slot_count(self.mode) - self.j) * 3004;
        let nodes = (500 - self.k) * 6;
        match self.stage {
            ListStage::Head => (slot_part + 3003) as nat,
            ListStage::End => (slot_part + 3002) as nat,
            ListStage::First => (slot_part + 3001) as nat,
            ListStage::Node => (slot_part + nodes) as nat,
            ListStage::Vtable => (slot_part + nodes - 1) as nat,
            ListStage::Parent => (slot_part + nodes - 2) as nat,
            ListStage::Typed => (slot_part + nodes - 2 - self.probe.history().len()) as nat,
            ListStage::Finished => 0,
        }
    }

    pub closed spec fn inv(&self) -> bool {
        &&& !(self.stage is Finished) ==> {
            &&& self.j < slot_count(self.mode)
            &&& forall|m: Memory| #[trigger] agrees(m, self.hist@) ==> self.result_model(m) == self.rest_model(m)
        }
        &&& self.stage is Head ==> {
            &&& !slot_skipped(self.mode, self.parent_off, self.j as int)
            &&& self.pending == (ReadRequest { addr: wadd(self.addr, slot_start(self.mode, self.j as int) as u64), len: 8 })
        }
        &&& self.stage is End ==> self.pending == (ReadRequest { addr: wadd(self.head, slot_end(self.j as int) as u64), len: 8 })
        &&& self.stage is First ==> self.pending == (ReadRequest { addr: self.head, len: 8 })
        &&& self.walking() ==> {
            &&& self.k < 500
            &&& self.count <= self.k
            &&& !walk_stops(self.mode, self.head, self.end, self.n, self.k as nat)
        }
        &&& self.stage is Node ==> self.pending == (ReadRequest { addr: self.n, len: 8 })
        &&& (self.stage is Vtable || self.stage is Parent) ==> forall|m: Memory|
            #[trigger] agrees(m, self.hist@) ==> mem_word(m, self.n as int) == Some(self.child)
        &&& (self.stage is Vtable || self.stage is Parent || self.stage is Typed) ==> self.child >= 0x10000
        &&& self.stage is Vtable ==> self.pending == (ReadRequest { addr: self.child, len: 8 })
        &&& self.stage is Parent ==> {
            &&& !(self.mode is Typed)
            &&& self.pending == (ReadRequest { addr: wadd(self.child, self.parent_off as u64), len: 8 })
            &&& forall|m: Memory| #[trigger] agrees(m, self.hist@) ==> (mem_word(m, self.child as int) matches Some(vt) && vt >= 0x10000)
        }
        &&& self.stage is Typed ==> {
            &&& self.mode is Typed
            &&& self.probe.inv()
            &&& self.probe.awaiting()
            &&& self.probe.history().len() < 4
            &&& self.probe.address() == self.child
            &&& self.hist@ == self.prefix@ + self.probe.history()
            &&& self.pending == self.probe.pending()
            &&& forall|m: Memory| #[trigger] agrees(m, self.prefix@) ==> mem_word(m, self.n as int) == Some(self.child)
                && (mem_word(m, self.child as int) matches Some(vt) && vt >= 0x10000)
        }
    }

    /// Starts searching the instance at `addr`, whose parent pointer sits at
    /// `parent_off`, for its child list.
    pub fn start(mode: ListCheck, addr: u64, parent_off: usize) -> (r: (ListProbe, Progress<Option<(usize, usize)>>))
        ensures
            r.0.inv(),
            r.0.history() == Seq::<Answer>::empty(),
            forall|m: Memory| #[trigger] r.0.result_model(m) == list_search(m, mode, addr, parent_off, 0),
            r.0.reads_left() <= slot_count(mode) * 3004 + 3003,
            match r.1 {
                Progress::Read(q) => q == r.0.pending() && r.0.awaiting(),
                Progress::Done(x) => !r.0.awaiting() && forall|m: Memory| x == #[trigger] r.0.result_model(m),
            },
    {
        let (probe, _q) = RttiProbe::start(0);
        let mut lp = ListProbe {
            mode,
            addr,
            parent_off,
            j: 0,
            stage: ListStage::Head,
            head: 0,
            end: 0,
            n: 0,
            k: 0,
            count: 0,
            child: 0,
            probe,
            pending: ReadRequest { addr: 0, len: 8 },
            prefix: Ghost(Seq::empty()),
            hist: Ghost(Seq::empty()),
        };
        let p = lp.enter_slot();
        (lp, p)
    }

    /// Slot `self.j` is the next one to try: moves past skipped slots and asks
    /// for the word at the first remaining one.
    fn enter_slot(&mut self) -> (p: Progress<Option<(usize, usize)>>)
        requires
            old(self).j <= slot_count(old(self).mode),
            forall|m: Memory| #[trigger] agrees(m, old(self).hist@) ==> old(self).result_model(m)
                == list_search(m, old(self).mode, old(self).addr, old(self).parent_off, old(self).j as int),
        ensures
            final(self).inv(),
            final(self).hist == old(self).hist,
            final(self).mode == old(self).mode,
            final(self).addr == old(self).addr,
            final(self).parent_off == old(self).parent_off,
            match p {
                Progress::Read(q) => q == final(self).pending && final(self).awaiting()
                    && final(self).j >= old(self).j && final(self).reads_left() == (slot_count(final(self).mode) - final(self).j) * 3004 + 3003,
                Progress::Done(x) => !final(self).awaiting() && forall|m: Memory|
                    agrees(m, final(self).hist@) ==> x == #[trigger] final(self).result_model(m),
            },
    {
        let total: usize = if self.mode == ListCheck::Loose { 1536 } else { 384 };
        let ghost h = self.hist@;
        while self.j < total
            invariant
                total == slot_count(self.mode),
                self.j <= total,
                self.j >= old(self).j,
                self.hist@ == h,
                self.mode == old(self).mode,
                self.addr == old(self).addr,
                self.parent_off == old(self).parent_off,
                forall|m: Memory| #[trigger] agrees(m, h) ==> self.result_model(m)
                    == list_search(m, self.mode, self.addr, self.parent_off, self.j as int),
            ensures
                self.j >= total || !slot_skipped(self.mode, self.parent_off, self.j as int),
                self.j <= total,
                self.j >= old(self).j,
                self.hist@ == h,
                self.mode == old(self).mode,
                self.addr == old(self).addr,
                self.parent_off == old(self).parent_off,
                forall|m: Memory| #[trigger] agrees(m, h) ==> self.result_model(m)
                    == list_search(m, self.mode, self.addr, self.parent_off, self.j as int),
            decreases total - self.j,
        {
            let so = self.slot_start_exec();
            if self.mode == ListCheck::Typed || so != self.parent_off {
                break;
            }
            self.j = self.j + 1;
        }
        if self.j >= total {
            self.stage = ListStage::Finished;
            return Progress::Done(None);
        }
        let so = self.slot_start_exec();
        let q = ReadRequest { addr: self.addr.wrapping_add(so as u64), len: 8 };
        self.stage = ListStage::Head;
        self.pending = q;
        assert forall|m: Memory| #[trigger] agrees(m, self.hist@) implies self.result_model(m) == self.rest_model(m) by {}
        Progress::Read(q)
    }

    fn slot_start_exec(&self) -> (so: usize)
        requires
            self.j < slot_count(self.mode),
        ensures
            so == slot_start(self.mode, self.j as int),
    {
        if self.mode == ListCheck::Loose {
            (self.j / 16) * 8
        } else {
            (self.j / 4) * 8
        }
    }

    fn slot_stride_exec(&self) -> (s: u64)
        ensures
            s == slot_stride(self.mode, self.j as int),
    {
        if self.mode == ListCheck::Loose {
            let i = (self.j / 4) % 4;
            if i == 0 {
                0x10
            } else if i == 1 {
                0x18
            } else if i == 2 {
                0x20
            } else {
                0x08
            }
        } else {
            0x10
        }
    }

    /// The current slot does not hold the list: go on with the next one.
    fn fail_slot(&mut self) -> (p: Progress<Option<(usize, usize)>>)
        requires
            old(self).j < slot_count(old(self).mode),
            forall|m: Memory| #[trigger] agrees(m, old(self).hist@) ==> old(self).result_model(m)
                == list_search(m, old(self).mode, old(self).addr, old(self).parent_off, old(self).j + 1),
        ensures
            final(self).inv(),
            final(self).hist == old(self).hist,
            final(self).mode == old(self).mode,
            final(self).addr == old(self).addr,
            final(self).parent_off == old(self).parent_off,
            match p {
                Progress::Read(q) => q == final(self).pending && final(self).awaiting()
                    && final(self).reads_left() <= (slot_count(old(self).mode) - old(self).j - 1) * 3004 + 3003,
                Progress::Done(x) => !final(self).awaiting() && forall|m: Memory|
                    agrees(m, final(self).hist@) ==> x == #[trigger] final(self).result_model(m),
            },
    {
        self.j = self.j + 1;
        self.enter_slot()
    }

    /// At the walk position (`n`, `k`, `count`): finish the slot when the walk
    /// stops, else ask for the node's word.
    fn walk_step(&mut self) -> (p: Progress<Option<(usize, usize)>>)
        requires
            old(self).j < slot_count(old(self).mode),
            old(self).k <= 500,
            old(self).count <= old(self).k,
            forall|m: Memory| #[trigger] agrees(m, old(self).hist@) ==> old(self).result_model(m)
                == settle(m, old(self).mode, old(self).addr, old(self).parent_off, old(self).j as int, old(self).walk_here(m)),
        ensures
            final(self).inv(),
            final(self).hist == old(self).hist,
            final(self).mode == old(self).mode,
            final(self).addr == old(self).addr,
            final(self).parent_off == old(self).parent_off,
            match p {
                Progress::Read(q) => q == final(self).pending && final(self).awaiting()
                    && final(self).reads_left() <= (slot_count(old(self).mode) - old(self).j) * 3004 + (500 - old(self).k) * 6,
                Progress::Done(x) => !final(self).awaiting() && forall|m: Memory|
                    agrees(m, final(self).hist@) ==> x == #[trigger] final(self).result_model(m),
            },
    {
        let loose = self.mode == ListCheck::Loose;
        if self.k >= MAX_LIST_NODES || self.n == self.end || (loose && (self.n == 0 || self.n == self.head)) {
            let need: usize = if loose { 1 } else { 2 };
            if self.count >= need {
                self.stage = ListStage::Finished;
                let so = self.slot_start_exec();
                let eo = (self.j % 4) * 8;
                return Progress::Done(Some((so, eo)));
            }
            return self.fail_slot();
        }
        self.stage = ListStage::Node;
        let q = ReadRequest { addr: self.n, len: 8 };
        self.pending = q;
        Progress::Read(q)
    }

    /// A child passed its check: count it and move to the next node.
    fn child_passed(&mut self) -> (p: Progress<Option<(usize, usize)>>)
        requires
            old(self).j < slot_count(old(self).mode),
            old(self).k < 500,
            old(self).count <= old(self).k,
            !walk_stops(old(self).mode, old(self).head, old(self).end, old(self).n, old(self).k as nat),
            forall|m: Memory| #[trigger] agrees(m, old(self).hist@) ==> node_ok(m, old(self).mode, old(self).addr, old(self).parent_off, old(self).n),
            forall|m: Memory| #[trigger] agrees(m, old(self).hist@) ==> old(self).result_model(m)
                == settle(m, old(self).mode, old(self).addr, old(self).parent_off, old(self).j as int, old(self).walk_here(m)),
        ensures
            final(self).inv(),
            final(self).hist == old(self).hist,
            final(self).mode == old(self).mode,
            final(self).addr == old(self).addr,
            final(self).parent_off == old(self).parent_off,
            match p {
                Progress::Read(q) => q == final(self).pending && final(self).awaiting()
                    && final(self).reads_left() <= (slot_count(old(self).mode) - old(self).j) * 3004 + (500 - old(self).k - 1) * 6,
                Progress::Done(x) => !final(self).awaiting() && forall|m: Memory|
                    agrees(m, final(self).hist@) ==> x == #[trigger] final(self).result_model(m),
            },
    {
        let stride = self.slot_stride_exec();
        let ghost old_self = *self;
        self.count = self.count + 1;
        self.n = self.n.wrapping_add(stride);
        self.k = self.k + 1;
        assert forall|m: Memory| #[trigger] agrees(m, self.hist@) implies self.result_model(m)
            == settle(m, self.mode, self.addr, self.parent_off, self.j as int, self.walk_here(m)) by {
            assert(old_self.result_model(m) == settle(m, self.mode, self.addr, self.parent_off, self.j as int, old_self.walk_here(m)));
            assert(node_ok(m, self.mode, self.addr, self.parent_off, old_self.n));
            assert(old_self.walk_here(m) == self.walk_here(m));
        }
        self.walk_step()
    }

    /// Takes the answer to the pending read. When the search is over the result
    /// is the pair of offsets every memory agreeing with the answers gives.
    pub fn resume(&mut self, data: Option<Vec<u8>>) -> (p: Progress<Option<(usize, usize)>>)
        requires
            old(self).inv(),
            old(self).awaiting(),
        ensures
            final(self).inv(),
            forall|m: Memory| #[trigger] final(self).result_model(m) == old(self).result_model(m),
            final(self).history() == old(self).history().push(answer_of(old(self).pending(), data)),
            match p {
                Progress::Read(q) => q == final(self).pending() && final(self).awaiting() && final(self).reads_left()
                    < old(self).reads_left(),
                Progress::Done(r) => !final(self).awaiting() && forall|m: Memory|
                    agrees(m, final(self).history()) ==> r == #[trigger] final(self).result_model(m),
            },
    {
        let ghost h0 = self.hist@;
        let ghost q0 = self.pending;
        let ghost ans = answer_of(self.pending, data);
        let ghost old_self = *self;
        proof {
            self.hist@ = self.hist@.push(ans);
        }
        let ghost h1 = self.hist@;
        assert forall|m: Memory| #[trigger] agrees(m, h1) implies self.result_model(m) == old_self.rest_model(m)
            && agrees(m, h0) by {
            lemma_agrees_push(m, h0, ans);
        }
        match self.stage {
            ListStage::Typed => {
                let r = self.probe.resume(data);
                proof {
                    assert(self.hist@ =~= self.prefix@ + self.probe.history());
                }
                match r {
                    Progress::Read(q) => {
                        self.pending = q;
                        assert forall|m: Memory| #[trigger] agrees(m, self.hist@) implies self.result_model(m) == self.rest_model(m) by {
                            lemma_agrees_suffix(m, self.prefix@, self.probe.history());
                        }
                        return Progress::Read(q);
                    },
                    Progress::Done(info) => {
                        assert forall|m: Memory| #[trigger] agrees(m, self.hist@) implies (info is Some) == node_ok(m, self.mode, self.addr, self.parent_off, self.n) by {
                            lemma_agrees_suffix(m, self.prefix@, self.probe.history());
                            assert(mem_word(m, self.n as int) == Some(self.child));
                        }
                        if info.is_none() {
                            assert forall|m: Memory| #[trigger] agrees(m, self.hist@) implies self.result_model(m)
                                == list_search(m, self.mode, self.addr, self.parent_off, self.j + 1) by {}
                            return self.fail_slot();
                        }
                        return self.child_passed();
                    },
                }
            },
            _ => {},
        }
        let w = word_of(&data);
        assert forall|m: Memory| #[trigger] agrees(m, h1) implies w == mem_word(m, q0.addr as int) by {
            lemma_agrees_push(m, h0, ans);
        }
        match self.stage {
            ListStage::Head => {
                match w {
                    Some(head) => {
                        if head >= 0x10000 {
                            self.head = head;
                            self.stage = ListStage::End;
                            let eo = (self.j % 4) * 8;
                            let q = ReadRequest { addr: head.wrapping_add(eo as u64), len: 8 };
                            self.pending = q;
                            assert forall|m: Memory| #[trigger] agrees(m, self.hist@) implies self.result_model(m) == self.rest_model(m) by {}
                            return Progress::Read(q);
                        }
                    },
                    None => {},
                }
                return self.fail_slot();
            },
            ListStage::End => {
                match w {
                    Some(end) => {
                        if self.mode == ListCheck::Loose || end >= 0x10000 {
                            self.end = end;
                            self.stage = ListStage::First;
                            let q = ReadRequest { addr: self.head, len: 8 };
                            self.pending = q;
                            assert forall|m: Memory| #[trigger] agrees(m, self.hist@) implies self.result_model(m) == self.rest_model(m) by {}
                            return Progress::Read(q);
                        }
                    },
                    None => {},
                }
                return self.fail_slot();
            },
            ListStage::First => {
                match w {
                    Some(first) => {
                        if first >= 0x10000 {
                            self.n = first;
                            self.k = 0;
                            self.count = 0;
                            assert forall|m: Memory| #[trigger] agrees(m, self.hist@) implies self.result_model(m)
                                == settle(m, self.mode, self.addr, self.parent_off, self.j as int, self.walk_here(m)) by {}
                            return self.walk_step();
                        }
                    },
                    None => {},
                }
                return self.fail_slot();
            },
            ListStage::Node => {
                match w {
                    Some(child) => {
                        if child >= 0x10000 {
                            self.child = child;
                            self.stage = ListStage::Vtable;
                            let q = ReadRequest { addr: child, len: 8 };
                            self.pending = q;
                            assert forall|m: Memory| #[trigger] agrees(m, self.hist@) implies self.result_model(m) == self.rest_model(m) by {}
                            return Progress::Read(q);
                        }
                    },
                    None => {},
                }
                assert forall|m: Memory| #[trigger] agrees(m, self.hist@) implies self.result_model(m)
                    == list_search(m, self.mode, self.addr, self.parent_off, self.j + 1) by {}
                return self.fail_slot();
            },
            ListStage::Vtable => {
                match w {
                    Some(vt) => {
                        if vt >= 0x10000 {
                            if self.mode == ListCheck::Typed {
                                let (probe, q) = RttiProbe::start(self.child);
                                self.probe = probe;
                                self.stage = ListStage::Typed;
                                self.pending = q;
                                proof {
                                    self.prefix@ = h1;
                                    assert(self.hist@ =~= self.prefix@ + self.probe.history());
                                }
                                assert forall|m: Memory| #[trigger] agrees(m, self.hist@) implies self.result_model(m) == self.rest_model(m) by {}
                                return Progress::Read(q);
                            }
                            self.stage = ListStage::Parent;
                            let q = ReadRequest { addr: self.child.wrapping_add(self.parent_off as u64), len: 8 };
                            self.pending = q;
                            assert forall|m: Memory| #[trigger] agrees(m, self.hist@) implies self.result_model(m) == self.rest_model(m) by {}
                            return Progress::Read(q);
                        }
                    },
                    None => {},
                }
                assert forall|m: Memory| #[trigger] agrees(m, self.hist@) implies self.result_model(m)
                    == list_search(m, self.mode, self.addr, self.parent_off, self.j + 1) by {}
                return self.fail_slot();
            },
            ListStage::Parent => {
                assert forall|m: Memory| #[trigger] agrees(m, self.hist@) implies (w == Some(self.addr)) == node_ok(m, self.mode, self.addr, self.parent_off, self.n) by {}
                if w == Some(self.addr) {
                    return self.child_passed();
                }
                assert forall|m: Memory| #[trigger] agrees(m, self.hist@) implies self.result_model(m)
                    == list_search(m, self.mode, self.addr, self.parent_off, self.j + 1) by {}
                return self.fail_slot();
            },
            _ => {
                self.stage = ListStage::Finished;
                return Progress::Done(None);
            },
        }
    }
}

} // verus!
