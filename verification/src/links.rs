//! Finding the slot of an object that points to an object of a given class,
//! directly or through the first word of an array.

use vstd::prelude::*;

use crate::memory::{
    agrees, answer_of, lemma_agrees_push, lemma_agrees_suffix, mem_word, word_of, Answer, Memory, Progress,
    ReadRequest,
};
use crate::rtti::{info_view, rtti_model, wadd, RttiProbe};
use crate::slots::{accepts, rule_accepts, ClassRule};

verus! {

/// The object at `q` has readable type information naming a class the rule
/// accepts.
pub open spec fn class_taken(m: Memory, q: u64, rule: ClassRule) -> bool {
    rtti_model(m, q) matches Some(n) && rule_accepts(rule, n)
}

/// What a slot word `p` (at least `0x10000`) must lead to: an object of an
/// accepted class itself or, with `hop`, through its first word (which must
/// be readable and at least `0x10000`).
pub open spec fn link_taken(m: Memory, p: u64, rule: ClassRule, hop: bool) -> bool {
    if hop {
        match mem_word(m, p as int) {
            Some(f) => f >= 0x10000 && class_taken(m, f, rule),
            None => false,
        }
    } else {
        class_taken(m, p, rule)
    }
}

/// The first 8-aligned offset from `off` below `limit` whose slot in the
/// object at `addr` holds a word of at least `0x10000` that leads to an
/// accepted class, with that word. A slot whose word cannot be read is passed
/// over, or, when `strict`, ends the search without a result.
pub open spec fn slot_find(
    m: Memory,
    addr: u64,
    rule: ClassRule,
    limit: usize,
    strict: bool,
    hop: bool,
    off: int,
) -> Option<(usize, u64)>
    decreases limit + 8 - off,
{
    if off < 0 || off >= limit {
        None
    } else {
        match mem_word(m, wadd(addr, off as u64) as int) {
            None => if strict {
                None
            } else {
                slot_find(m, addr, rule, limit, strict, hop, off + 8)
            },
            Some(p) => if p >= 0x10000 && link_taken(m, p, rule, hop) {
                Some((off as usize, p))
            } else {
                slot_find(m, addr, rule, limit, strict, hop, off + 8)
            },
        }
    }
}

/// A hit is an 8-aligned offset below `limit` whose word is at least
/// `0x10000` and leads to an object of an accepted class.
pub proof fn law_slot_find_hit(m: Memory, addr: u64, rule: ClassRule, limit: usize, strict: bool, hop: bool, off: int)
    requires
        off >= 0,
        off % 8 == 0,
    ensures
        slot_find(m, addr, rule, limit, strict, hop, off) matches Some(h) ==> {
            &&& off <= h.0 < limit
            &&& h.0 % 8 == 0
            &&& mem_word(m, wadd(addr, h.0 as u64) as int) == Some(h.1)
            &&& h.1 >= 0x10000
            &&& link_taken(m, h.1, rule, hop)
        },
    decreases limit + 8 - off,
{
    if off < limit {
        law_slot_find_hit(m, addr, rule, limit, strict, hop, off + 8);
    }
}

/// Where a `SlotFind` stands.
pub enum LinkStage {
    /// Waiting for the slot's word.
    Slot,
    /// Waiting for the first word of the array the slot points to.
    First,
    /// Reading the type information of the object reached.
    Probe,
}

/// Searches the slots of an object (see `slot_find`), one memory read at a
/// time.
pub struct SlotFind {
    addr: u64,
    rule: ClassRule,
    limit: usize,
    strict: bool,
    hop: bool,
    off: usize,
    stage: LinkStage,
    finished: bool,
    ptr: u64,
    probe: RttiProbe,
    pending: ReadRequest,
    prefix: Ghost<Seq<Answer>>,
    hist: Ghost<Seq<Answer>>,
}

impl SlotFind {
    pub closed spec fn history(&self) -> Seq<Answer> {
        self.hist@
    }

    pub closed spec fn pending(&self) -> ReadRequest {
        self.pending
    }

    pub closed spec fn awaiting(&self) -> bool {
        !self.finished
    }

    pub closed spec fn result_model(&self, m: Memory) -> Option<(usize, u64)> {
        slot_find(m, self.addr, self.rule, self.limit, self.strict, self.hop, 0)
    }

    /// The search from the current slot on, for a memory agreeing with `h`.
    pub closed spec fn rest_agrees(&self, h: Seq<Answer>) -> bool {
        forall|m: Memory| #[trigger] agrees(m, h) ==> self.result_model(m) == slot_find(
            m,
            self.addr,
            self.rule,
            self.limit,
            self.strict,
            self.hop,
            self.off as int,
        )
    }

    /// An upper bound on the reads the search still asks for: seven for each
    /// slot left, fewer within the current slot.
    pub closed spec fn reads_left(&self) -> nat {
        if self.finished {
            0
        } else {
            match self.stage {
                LinkStage::Slot => ((self.limit - self.off) * 7 + 6) as nat,
                LinkStage::First => ((self.limit - self.off) * 7 + 5) as nat,
                LinkStage::Probe => ((self.limit - self.off) * 7 + 4 - self.probe.history().len()) as nat,
            }
        }
    }

    pub closed spec fn inv(&self) -> bool {
        &&& self.limit <= usize::MAX - 8
        &&& !self.finished ==> {
            &&& self.off < self.limit
            &&& match self.stage {
                LinkStage::Slot => {
                    &&& self.pending == (ReadRequest { addr: wadd(self.addr, self.off as u64), len: 8 })
                    &&& self.rest_agrees(self.hist@)
                },
                LinkStage::First => {
                    &&& self.hop
                    &&& self.ptr >= 0x10000
                    &&& self.pending == (ReadRequest { addr: self.ptr, len: 8 })
                    &&& self.rest_agrees(self.hist@)
                    &&& forall|m: Memory| #[trigger] agrees(m, self.hist@) ==> mem_word(
                        m,
                        wadd(self.addr, self.off as u64) as int,
                    ) == Some(self.ptr)
                },
                LinkStage::Probe => {
                    &&& self.probe.inv()
                    &&& self.probe.awaiting()
                    &&& self.probe.history().len() < 4
                    &&& self.ptr >= 0x10000
                    &&& self.hist@ == self.prefix@ + self.probe.history()
                    &&& self.pending == self.probe.pending()
                    &&& self.rest_agrees(self.prefix@)
                    &&& forall|m: Memory| #[trigger] agrees(m, self.prefix@) ==> mem_word(
                        m,
                        wadd(self.addr, self.off as u64) as int,
                    ) == Some(self.ptr) && (if self.hop {
                        mem_word(m, self.ptr as int) == Some(self.probe.address())
                            && self.probe.address() >= 0x10000
                    } else {
                        self.probe.address() == self.ptr
                    })
                },
            }
        }
    }

    /// Starts searching the slots of the object at `addr` below `limit`.
    pub fn start(addr: u64, rule: ClassRule, limit: usize, strict: bool, hop: bool) -> (r: (
        SlotFind,
        Progress<Option<(usize, u64)>>,
    ))
        requires
            limit <= usize::MAX - 8,
        ensures
            r.0.inv(),
            r.0.history() == Seq::<Answer>::empty(),
            forall|m: Memory| #[trigger] r.0.result_model(m) == slot_find(m, addr, rule, limit, strict, hop, 0),
            r.0.reads_left() <= limit * 7 + 6,
            match r.1 {
                Progress::Read(q) => q == r.0.pending() && r.0.awaiting(),
                Progress::Done(x) => !r.0.awaiting() && x is None && limit == 0,
            },
    {
        let (probe, _q) = RttiProbe::start(0);
        let q = ReadRequest { addr: addr.wrapping_add(0), len: 8 };
        let done = limit == 0;
        let f = SlotFind {
            addr,
            rule,
            limit,
            strict,
            hop,
            off: 0,
            stage: LinkStage::Slot,
            finished: done,
            ptr: 0,
            probe,
            pending: q,
            prefix: Ghost(Seq::empty()),
            hist: Ghost(Seq::empty()),
        };
        if done {
            (f, Progress::Done(None))
        } else {
            (f, Progress::Read(q))
        }
    }

    /// Moves to the next slot, or ends when the slots run out.
    fn advance(&mut self) -> (p: Progress<Option<(usize, u64)>>)
        requires
            !old(self).finished,
            old(self).limit <= usize::MAX - 8,
            old(self).off < old(self).limit,
            forall|m: Memory| #[trigger] agrees(m, old(self).hist@) ==> old(self).result_model(m) == slot_find(
                m,
                old(self).addr,
                old(self).rule,
                old(self).limit,
                old(self).strict,
                old(self).hop,
                old(self).off + 8,
            ),
        ensures
            final(self).inv(),
            final(self).hist == old(self).hist,
            final(self).addr == old(self).addr,
            final(self).rule == old(self).rule,
            final(self).limit == old(self).limit,
            final(self).strict == old(self).strict,
            final(self).hop == old(self).hop,
            match p {
                Progress::Read(q) => q == final(self).pending && final(self).awaiting() && final(self).reads_left() == (
                old(self).limit - old(self).off - 8) * 7 + 6,
                Progress::Done(x) => !final(self).awaiting() && forall|m: Memory|
                    agrees(m, final(self).hist@) ==> x == #[trigger] final(self).result_model(m),
            },
    {
        self.off = self.off + 8;
        self.stage = LinkStage::Slot;
        if self.off >= self.limit {
            self.finished = true;
            proof {
                assert forall|m: Memory| agrees(m, self.hist@) implies None::<(usize, u64)> == #[trigger] self.result_model(
                    m,
                ) by {
                    assert(slot_find(m, self.addr, self.rule, self.limit, self.strict, self.hop, self.off as int) is None);
                }
            }
            return Progress::Done(None);
        }
        let q = ReadRequest { addr: self.addr.wrapping_add(self.off as u64), len: 8 };
        self.pending = q;
        Progress::Read(q)
    }

    /// Starts reading the type information of the object at `target`.
    fn probe_at(&mut self, target: u64) -> (p: Progress<Option<(usize, u64)>>)
        requires
            !old(self).finished,
            old(self).limit <= usize::MAX - 8,
            old(self).off < old(self).limit,
            old(self).ptr >= 0x10000,
            old(self).rest_agrees(old(self).hist@),
            forall|m: Memory| #[trigger] agrees(m, old(self).hist@) ==> mem_word(
                m,
                wadd(old(self).addr, old(self).off as u64) as int,
            ) == Some(old(self).ptr) && (if old(self).hop {
                mem_word(m, old(self).ptr as int) == Some(target) && target >= 0x10000
            } else {
                target == old(self).ptr
            }),
        ensures
            final(self).inv(),
            final(self).hist == old(self).hist,
            final(self).addr == old(self).addr,
            final(self).rule == old(self).rule,
            final(self).limit == old(self).limit,
            final(self).strict == old(self).strict,
            final(self).hop == old(self).hop,
            p matches Progress::Read(q) && q == final(self).pending && final(self).awaiting(),
            final(self).reads_left() == (old(self).limit - old(self).off) * 7 + 4,
    {
        let (probe, q) = RttiProbe::start(target);
        self.probe = probe;
        self.stage = LinkStage::Probe;
        self.pending = q;
        proof {
            self.prefix@ = self.hist@;
            assert(self.hist@ =~= self.prefix@ + self.probe.history());
        }
        Progress::Read(q)
    }

    /// Takes the answer to the pending read. When the search is over the
    /// result is the one every memory agreeing with the answers gives.
    pub fn resume(&mut self, data: Option<Vec<u8>>) -> (p: Progress<Option<(usize, u64)>>)
        requires
            old(self).inv(),
            old(self).awaiting(),
        ensures
            final(self).inv(),
            forall|m: Memory| #[trigger] final(self).result_model(m) == old(self).result_model(m),
            final(self).history() == old(self).history().push(answer_of(old(self).pending(), data)),
            match p {
                Progress::Read(q) => q == final(self).pending() && final(self).awaiting() && final(self).reads_left()
                    < old(self).reads_left(),
                Progress::Done(r) => !final(self).awaiting() && forall|m: Memory|
                    agrees(m, final(self).history()) ==> r == #[trigger] final(self).result_model(m),
            },
    {
        let ghost h0 = self.hist@;
        let ghost q0 = self.pending;
        let ghost ans = answer_of(self.pending, data);
        proof {
            self.hist@ = self.hist@.push(ans);
        }
        let ghost h1 = self.hist@;
        match self.stage {
            LinkStage::Slot => {
                let w = word_of(&data);
                assert forall|m: Memory| #[trigger] agrees(m, h1) implies w == mem_word(m, q0.addr as int)
                    && self.result_model(m) == slot_find(
                    m,
                    self.addr,
                    self.rule,
                    self.limit,
                    self.strict,
                    self.hop,
                    self.off as int,
                ) by {
                    lemma_agrees_push(m, h0, ans);
                }
                match w {
                    None => {
                        if self.strict {
                            self.finished = true;
                            return Progress::Done(None);
                        }
                        return self.advance();
                    },
                    Some(p) => {
                        if p < 0x10000 {
                            return self.advance();
                        }
                        self.ptr = p;
                        if self.hop {
                            self.stage = LinkStage::First;
                            let q = ReadRequest { addr: p, len: 8 };
                            self.pending = q;
                            return Progress::Read(q);
                        }
                        return self.probe_at(p);
                    },
                }
            },
            LinkStage::First => {
                let w = word_of(&data);
                assert forall|m: Memory| #[trigger] agrees(m, h1) implies w == mem_word(m, self.ptr as int)
                    && mem_word(m, wadd(self.addr, self.off as u64) as int) == Some(self.ptr)
                    && self.result_model(m) == slot_find(
                    m,
                    self.addr,
                    self.rule,
                    self.limit,
                    self.strict,
                    self.hop,
                    self.off as int,
                ) by {
                    lemma_agrees_push(m, h0, ans);
                }
                match w {
                    Some(f) => {
                        if f >= 0x10000 {
                            return self.probe_at(f);
                        }
                        return self.advance();
                    },
                    None => {
                        return self.advance();
                    },
                }
            },
            LinkStage::Probe => {
                let r = self.probe.resume(data);
                proof {
                    assert(self.hist@ =~= self.prefix@ + self.probe.history());
                }
                match r {
                    Progress::Read(q) => {
                        self.pending = q;
                        return Progress::Read(q);
                    },
                    Progress::Done(info) => {
                        let ghost target = self.probe.address();
                        let hit = match &info {
                            Some(i) => accepts(&self.rule, i.name.as_str()),
                            None => false,
                        };
                        assert forall|m: Memory| #[trigger] agrees(m, self.hist@) implies hit == link_taken(
                            m,
                            self.ptr,
                            self.rule,
                            self.hop,
                        ) && mem_word(m, wadd(self.addr, self.off as u64) as int) == Some(self.ptr)
                            && self.result_model(m) == slot_find(
                            m,
                            self.addr,
                            self.rule,
                            self.limit,
                            self.strict,
                            self.hop,
                            self.off as int,
                        ) by {
                            lemma_agrees_suffix(m, self.prefix@, self.probe.history());
                            assert(info_view(info) == rtti_model(m, target));
                        }
                        if hit {
                            self.finished = true;
                            return Progress::Done(Some((self.off, self.ptr)));
                        }
                        return self.advance();
                    },
                }
            },
        }
    }
}

} // verus!
