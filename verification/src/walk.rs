use vstd::prelude::*;

use crate::memory::{
    agrees, answer_of, lemma_agrees_push, mem_word, word_of, Answer, Memory, Progress, ReadRequest,
};
use crate::rtti::wadd;

verus! {

/// What the list node at `node` contributes: its first word, when that word
/// can be read and is at least `0x10000`.
pub open spec fn node_child(m: Memory, node: int) -> Seq<u64> {
    match mem_word(m, node) {
        Some(c) => if c >= 0x10000 {
            seq![c]
        } else {
            Seq::empty()
        },
        None => Seq::empty(),
    }
}

/// The children on the list nodes from `node` up to the end marker `last`:
/// the nodes lie `0x10` bytes apart and every node below the marker is
/// visited, so the walk spans the list's own extent.
pub open spec fn walk_model(m: Memory, last: u64, node: int) -> Seq<u64>
    decreases last + 0x10 - node,
{
    if node >= last {
        Seq::empty()
    } else {
        node_child(m, node) + walk_model(m, last, node + 0x10)
    }
}

/// The list part once the head's `first` node is known: the `last` marker is
/// read at `head + ce`; both must be at least `0x10000`.
pub open spec fn after_first(m: Memory, head: u64, ce: usize, first: u64) -> Seq<u64> {
    match mem_word(m, wadd(head, ce as u64) as int) {
        Some(last) => if first < 0x10000 || last < 0x10000 {
            Seq::empty()
        } else {
            walk_model(m, last, first as int)
        },
        None => Seq::empty(),
    }
}

pub open spec fn after_head(m: Memory, head: u64, ce: usize) -> Seq<u64> {
    match mem_word(m, head as int) {
        Some(first) => after_first(m, head, ce, first),
        None => Seq::empty(),
    }
}

/// The direct children of the instance at `addr`: none while either list
/// offset is unknown (zero); otherwise the list head is the word at
/// `addr + cs` (below `0x10000` it counts as no list when `check_head` is set),
/// its first node is the word at the head, its end marker the word at
/// `head + ce`. A read that fails yields no children.
pub open spec fn children_model(m: Memory, addr: u64, cs: usize, ce: usize, check_head: bool) -> Seq<u64> {
    if cs == 0 || ce == 0 {
        Seq::empty()
    } else {
        match mem_word(m, wadd(addr, cs as u64) as int) {
            Some(head) => if check_head && head < 0x10000 {
                Seq::empty()
            } else {
                after_head(m, head, ce)
            },
            None => Seq::empty(),
        }
    }
}

/// A list whose end marker lies `0x10 * k` bytes after its first node, with a
/// child on each node: the walk gives back all `k` children, in list order.
pub open spec fn whole_list(m: Memory, first: int, k: nat, kids: Seq<u64>) -> bool {
    &&& kids.len() == k
    &&& forall|j: int| 0 <= j < k ==> mem_word(m, first + 0x10 * j) == Some(#[trigger] kids[j])
    &&& forall|j: int| 0 <= j < k ==> #[trigger] kids[j] >= 0x10000
}

proof fn lemma_walk_whole(m: Memory, last: u64, first: int, k: nat, kids: Seq<u64>)
    requires
        whole_list(m, first, k, kids),
        first + 0x10 * k == last,
    ensures
        walk_model(m, last, first) == kids,
    decreases k,
{
    if k > 0 {
        let rest = kids.drop_first();
        assert forall|j: int| 0 <= j < k - 1 implies mem_word(m, (first + 0x10) + 0x10 * j) == Some(
            #[trigger] rest[j],
        ) by {
            assert(mem_word(m, first + 0x10 * (j + 1)) == Some(kids[j + 1]));
            assert(first + 0x10 * (j + 1) == (first + 0x10) + 0x10 * j);
        }
        assert forall|j: int| 0 <= j < k - 1 implies #[trigger] rest[j] >= 0x10000 by {
            assert(kids[j + 1] >= 0x10000);
        }
        lemma_walk_whole(m, last, first + 0x10, (k - 1) as nat, rest);
        assert(mem_word(m, first + 0x10 * 0) == Some(kids[0]));
        assert(node_child(m, first) == seq![kids[0]]);
        assert(kids =~= seq![kids[0]] + rest);
    }
}

/// A well-formed list is walked whole: when the end marker lies `0x10 * k`
/// bytes after the first node and each of the `k` nodes holds a child, the
/// children are exactly those `k`, in list order, however long the list.
pub proof fn law_whole_list_walked(
    m: Memory,
    addr: u64,
    cs: usize,
    ce: usize,
    check_head: bool,
    head: u64,
    first: u64,
    k: nat,
    kids: Seq<u64>,
)
    requires
        cs != 0,
        ce != 0,
        mem_word(m, wadd(addr, cs as u64) as int) == Some(head),
        head >= 0x10000,
        mem_word(m, head as int) == Some(first),
        first >= 0x10000,
        mem_word(m, wadd(head, ce as u64) as int) == Some((first + 0x10 * k) as u64),
        first + 0x10 * k <= u64::MAX,
        whole_list(m, first as int, k, kids),
    ensures
        children_model(m, addr, cs, ce, check_head) == kids,
{
    let last = (first + 0x10 * k) as u64;
    lemma_walk_whole(m, last, first as int, k, kids);
}

proof fn lemma_walk_pointers(m: Memory, last: u64, node: int)
    ensures
        forall|i: int| 0 <= i < walk_model(m, last, node).len() ==> #[trigger] walk_model(m, last, node)[i] >= 0x10000,
    decreases last + 0x10 - node,
{
    if node < last {
        lemma_walk_pointers(m, last, node + 0x10);
        let head = node_child(m, node);
        let rest = walk_model(m, last, node + 0x10);
        assert(walk_model(m, last, node) == head + rest);
        assert forall|i: int| 0 <= i < (head + rest).len() implies #[trigger] (head + rest)[i] >= 0x10000 by {
            if i >= head.len() {
                assert((head + rest)[i] == rest[i - head.len()]);
            }
        }
    }
}

/// Every child a walk reports is a pointer of at least `0x10000`.
pub proof fn law_children_are_pointers(m: Memory, addr: u64, cs: usize, ce: usize, check_head: bool)
    ensures
        forall|i: int| 0 <= i < children_model(m, addr, cs, ce, check_head).len()
            ==> #[trigger] children_model(m, addr, cs, ce, check_head)[i] >= 0x10000,
{
    match mem_word(m, wadd(addr, cs as u64) as int) {
        Some(head) => match mem_word(m, head as int) {
            Some(first) => match mem_word(m, wadd(head, ce as u64) as int) {
                Some(last) => lemma_walk_pointers(m, last, first as int),
                None => {},
            },
            None => {},
        },
        None => {},
    }
}

pub enum WalkStage {
    Head,
    First,
    Last,
    Nodes,
    Finished,
}

/// Collects the direct children of an instance one memory read at a time.
pub struct ChildWalk {
    addr: u64,
    cs: usize,
    ce: usize,
    check_head: bool,
    stage: WalkStage,
    head: u64,
    first: u64,
    last: u64,
    node: u64,
    out: Vec<u64>,
    pending: ReadRequest,
    hist: Ghost<Seq<Answer>>,
}

impl ChildWalk {
    pub closed spec fn history(&self) -> Seq<Answer> {
        self.hist@
    }

    pub closed spec fn pending(&self) -> ReadRequest {
        self.pending
    }

    pub closed spec fn awaiting(&self) -> bool {
        !(self.stage is Finished)
    }

    pub closed spec fn result_model(&self, m: Memory) -> Seq<u64> {
        children_model(m, self.addr, self.cs, self.ce, self.check_head)
    }

    /// The reads before the list nodes that are still to come.
    pub closed spec fn setup_left(&self) -> nat {
        match self.stage {
            WalkStage::Head => 3,
            WalkStage::First => 2,
            WalkStage::Last => 1,
            _ => 0,
        }
    }

    /// The bytes of the list between the current node and the end marker:
    /// once the marker is known, each node read shrinks it by `0x10`.
    pub closed spec fn span_left(&self) -> nat {
        if self.stage is Nodes {
            (self.last - self.node) as nat
        } else {
            0
        }
    }

    pub closed spec fn rest_model(&self, m: Memory) -> Seq<u64> {
        match self.stage {
            WalkStage::Head => self.result_model(m),
            WalkStage::First => after_head(m, self.head, self.ce),
            WalkStage::Last => after_first(m, self.head, self.ce, self.first),
            WalkStage::Nodes => walk_model(m, self.last, self.node as int),
            WalkStage::Finished => Seq::empty(),
        }
    }

    pub closed spec fn inv(&self) -> bool {
        &&& self.stage is Head ==> self.out@.len() == 0 && self.cs != 0 && self.ce != 0 && self.pending == (
        ReadRequest { addr: wadd(self.addr, self.cs as u64), len: 8 })
        &&& self.stage is First ==> self.out@.len() == 0 && self.pending == (ReadRequest { addr: self.head, len: 8 })
        &&& self.stage is Last ==> self.out@.len() == 0 && self.pending == (ReadRequest {
            addr: wadd(self.head, self.ce as u64),
            len: 8,
        })
        &&& self.stage is Nodes ==> {
            &&& self.pending == (ReadRequest { addr: self.node, len: 8 })
            &&& self.node < self.last
        }
        &&& !(self.stage is Finished) ==> forall|m: Memory|
            agrees(m, self.hist@) ==> #[trigger] self.result_model(m) == self.out@ + self.rest_model(m)
    }

    /// Starts collecting the children of the instance at `addr` through the list
    /// at `addr + cs` whose end marker sits `ce` bytes into the list record;
    /// while either offset is zero there is nothing to read.
    pub fn start(addr: u64, cs: usize, ce: usize, check_head: bool) -> (r: (ChildWalk, Progress<Vec<u64>>))
        ensures
            r.0.inv(),
            r.0.history() == Seq::<Answer>::empty(),
            forall|m: Memory| #[trigger] r.0.result_model(m) == children_model(m, addr, cs, ce, check_head),
            match r.1 {
                Progress::Read(q) => q == r.0.pending() && r.0.awaiting() && r.0.setup_left() == 3,
                Progress::Done(x) => !r.0.awaiting() && x@ == Seq::<u64>::empty() && (cs == 0 || ce == 0),
            },
    {
        let q = ReadRequest { addr: addr.wrapping_add(cs as u64), len: 8 };
        let unknown = cs == 0 || ce == 0;
        let w = ChildWalk {
            addr,
            cs,
            ce,
            check_head,
            stage: if unknown {
                WalkStage::Finished
            } else {
                WalkStage::Head
            },
            head: 0,
            first: 0,
            last: 0,
            node: 0,
            out: Vec::new(),
            pending: q,
            hist: Ghost(Seq::empty()),
        };
        assert forall|m: Memory| agrees(m, w.hist@) implies #[trigger] w.result_model(m) == w.out@ + w.rest_model(m) by {
            assert(w.out@ + w.rest_model(m) =~= w.rest_model(m));
        }
        if unknown {
            (w, Progress::Done(Vec::new()))
        } else {
            (w, Progress::Read(q))
        }
    }

    /// Takes the answer to the pending read; when the walk is over the result is
    /// the list of children every memory agreeing with the answers gives. Each
    /// further read either finishes a setup read or moves to the next node.
    pub fn resume(&mut self, data: Option<Vec<u8>>) -> (p: Progress<Vec<u64>>)
        requires
            old(self).inv(),
            old(self).awaiting(),
        ensures
            final(self).inv(),
            forall|m: Memory| #[trigger] final(self).result_model(m) == old(self).result_model(m),
            final(self).history() == old(self).history().push(answer_of(old(self).pending(), data)),
            match p {
                Progress::Read(q) => q == final(self).pending() && final(self).awaiting() && (final(self).setup_left()
                    < old(self).setup_left() || (final(self).setup_left() == old(self).setup_left()
                    && final(self).span_left() < old(self).span_left())),
                Progress::Done(r) => !final(self).awaiting() && forall|m: Memory|
                    agrees(m, final(self).history()) ==> r@ == #[trigger] final(self).result_model(m),
            },
    {
        let ghost h0 = self.hist@;
        let ghost ans = answer_of(self.pending, data);
        let ghost q0 = self.pending;
        proof {
            self.hist@ = self.hist@.push(ans);
        }
        let ghost rest0 = |m: Memory| old(self).rest_model(m);
        let ghost h1 = self.hist@;
        let ghost (a0, cs0, ce0, ch0) = (self.addr, self.cs, self.ce, self.check_head);
        let w = word_of(&data);
        assert forall|m: Memory| #[trigger] agrees(m, h1) implies children_model(m, a0, cs0, ce0, ch0) == self.out@ + rest0(m)
            && w == mem_word(m, q0.addr as int) by {
            lemma_agrees_push(m, h0, ans);
            assert(old(self).result_model(m) == old(self).out@ + old(self).rest_model(m));
        }
        match self.stage {
            WalkStage::Head => {
                match w {
                    Some(head) => {
                        if self.check_head && head < 0x10000 {
                            self.stage = WalkStage::Finished;
                            let r = self.out.clone();
                            assert forall|m: Memory| agrees(m, self.hist@) implies r@ == #[trigger] self.result_model(m) by {
                                assert(self.out@ + rest0(m) =~= self.out@);
                            }
                            return Progress::Done(r);
                        }
                        self.head = head;
                        self.stage = WalkStage::First;
                        let q = ReadRequest { addr: head, len: 8 };
                        self.pending = q;
                        return Progress::Read(q);
                    },
                    None => {
                        self.stage = WalkStage::Finished;
                        let r = self.out.clone();
                        assert forall|m: Memory| agrees(m, self.hist@) implies r@ == #[trigger] self.result_model(m) by {
                            assert(self.out@ + rest0(m) =~= self.out@);
                        }
                        return Progress::Done(r);
                    },
                }
            },
            WalkStage::First => {
                match w {
                    Some(first) => {
                        self.first = first;
                        self.stage = WalkStage::Last;
                        let q = ReadRequest { addr: self.head.wrapping_add(self.ce as u64), len: 8 };
                        self.pending = q;
                        return Progress::Read(q);
                    },
                    None => {
                        self.stage = WalkStage::Finished;
                        let r = self.out.clone();
                        assert forall|m: Memory| agrees(m, self.hist@) implies r@ == #[trigger] self.result_model(m) by {
                            assert(self.out@ + rest0(m) =~= self.out@);
                        }
                        return Progress::Done(r);
                    },
                }
            },
            WalkStage::Last => {
                match w {
                    Some(last) => {
                        if self.first < 0x10000 || last < 0x10000 || self.first >= last {
                            self.stage = WalkStage::Finished;
                            let r = self.out.clone();
                            assert forall|m: Memory| agrees(m, self.hist@) implies r@ == #[trigger] self.result_model(m) by {
                                assert(self.out@ + rest0(m) =~= self.out@);
                            }
                            return Progress::Done(r);
                        }
                        self.last = last;
                        self.node = self.first;
                        self.stage = WalkStage::Nodes;
                        let q = ReadRequest { addr: self.node, len: 8 };
                        self.pending = q;
                        return Progress::Read(q);
                    },
                    None => {
                        self.stage = WalkStage::Finished;
                        let r = self.out.clone();
                        assert forall|m: Memory| agrees(m, self.hist@) implies r@ == #[trigger] self.result_model(m) by {
                            assert(self.out@ + rest0(m) =~= self.out@);
                        }
                        return Progress::Done(r);
                    },
                }
            },
            WalkStage::Nodes => {
                let ghost out0 = self.out@;
                let ghost node0 = self.node;
                match w {
                    Some(c) => {
                        if c >= 0x10000 {
                            self.out.push(c);
                        }
                    },
                    None => {},
                }
                let ghost out1 = self.out@;
                let ghost last1 = self.last;
                assert forall|m: Memory| #[trigger] agrees(m, h1) implies children_model(m, a0, cs0, ce0, ch0) == out1
                    + walk_model(m, last1, node0 + 0x10) by {
                    assert(rest0(m) == walk_model(m, last1, node0 as int));
                    assert(out0 + walk_model(m, last1, node0 as int) =~= out1 + walk_model(m, last1, node0 + 0x10));
                }
                if self.last - self.node <= 0x10 {
                    self.stage = WalkStage::Finished;
                    let r = self.out.clone();
                    assert forall|m: Memory| agrees(m, self.hist@) implies r@ == #[trigger] self.result_model(m) by {
                        assert(out1 + walk_model(m, last1, node0 + 0x10) =~= out1);
                    }
                    return Progress::Done(r);
                }
                self.node = self.node + 0x10;
                let q = ReadRequest { addr: self.node, len: 8 };
                self.pending = q;
                assert forall|m: Memory| agrees(m, self.hist@) implies #[trigger] self.result_model(m) == self.out@
                    + self.rest_model(m) by {}
                return Progress::Read(q);
            },
            WalkStage::Finished => {
                return Progress::Done(Vec::new());
            },
        }
    }
}

} // verus!
