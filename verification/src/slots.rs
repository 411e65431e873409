use vstd::prelude::*;

use crate::memory::{
    agrees, answer_of, lemma_agrees_push, lemma_agrees_suffix, mem_word, word_of, Answer, Memory, Progress,
    ReadRequest,
};
use crate::names::{name_fmt_model, sso_model, text_view, NameRead, SsoRead};
use crate::classify::{
    body_part_class_name, celestial_class_name, class_stem, is_body_part_class, is_celestial_class, is_script_runtime_class,
    script_runtime_class_name, stem_of,
};
use crate::rtti::{info_view, rtti_model, wadd, RttiProbe};
use crate::text::str_eq;

verus! {

/// The slot at `off` names `target` through its short-string object.
pub open spec fn sso_then(m: Memory, addr: u64, target: Seq<char>, limit: usize, strict: bool, off: int) -> Option<usize>
    decreases limit + 8 - off, 0int,
{
    if off < 0 || off >= limit {
        None
    } else if sso_model(m, wadd(addr, off as u64)) == Some(target) {
        Some(off as usize)
    } else {
        name_slot_search(m, addr, target, limit, strict, off + 8)
    }
}

/// The first 8-aligned offset from `off` below `limit` at which the object at
/// `addr` names `target`: either the slot's word points (at or above
/// `0x10000`) to a name in the engine's format equal to `target`, or the slot
/// holds a short-string object equal to it. When the slot's word cannot be
/// read, a `strict` search ends without a result; otherwise only the
/// short-string reading is tried there.
pub open spec fn name_slot_search(m: Memory, addr: u64, target: Seq<char>, limit: usize, strict: bool, off: int) -> Option<usize>
    decreases limit + 8 - off, 1int,
{
    if off < 0 || off >= limit {
        None
    } else {
        match mem_word(m, wadd(addr, off as u64) as int) {
            None => if strict {
                None
            } else {
                sso_then(m, addr, target, limit, strict, off)
            },
            Some(p) => if p >= 0x10000 && name_fmt_model(m, p) == Some(target) {
                Some(off as usize)
            } else {
                sso_then(m, addr, target, limit, strict, off)
            },
        }
    }
}

pub enum SlotStage {
    Word,
    Name,
    Sso,
    Finished,
}

/// Searches an object for the slot that names a given text (see
/// `name_slot_search`), one memory read at a time.
pub struct NameSlotScan {
    addr: u64,
    target: String,
    limit: usize,
    strict: bool,
    off: usize,
    stage: SlotStage,
    ptr: u64,
    name: NameRead,
    sso: SsoRead,
    pending: ReadRequest,
    prefix: Ghost<Seq<Answer>>,
    hist: Ghost<Seq<Answer>>,
}

impl NameSlotScan {
    pub closed spec fn history(&self) -> Seq<Answer> {
        self.hist@
    }

    pub closed spec fn pending(&self) -> ReadRequest {
        self.pending
    }

    pub closed spec fn awaiting(&self) -> bool {
        !(self.stage is Finished)
    }

    pub closed spec fn result_model(&self, m: Memory) -> Option<usize> {
        name_slot_search(m, self.addr, self.target@, self.limit, self.strict, 0)
    }

    closed spec fn slot(&self) -> u64 {
        wadd(self.addr, self.off as u64)
    }

    /// An upper bound on the reads the search still asks for: nine for each
    /// slot left, fewer within the current slot.
    pub closed spec fn reads_left(&self) -> nat {
        match self.stage {
            SlotStage::Word => ((self.limit - self.off) * 9 + 8) as nat,
            SlotStage::Name => ((self.limit - self.off) * 9 + 7 - self.name.history().len()) as nat,
            SlotStage::Sso => ((self.limit - self.off) * 9 + 4 - self.sso.history().len()) as nat,
            SlotStage::Finished => 0,
        }
    }

    pub closed spec fn inv(&self) -> bool {
        &&& self.limit <= usize::MAX - 8
        &&& !(self.stage is Finished) ==> self.off < self.limit
        &&& self.stage is Word ==> {
            &&& self.pending == (ReadRequest { addr: self.slot(), len: 8 })
            &&& forall|m: Memory| #[trigger] agrees(m, self.hist@) ==> self.result_model(m)
                == name_slot_search(m, self.addr, self.target@, self.limit, self.strict, self.off as int)
        }
        &&& self.stage is Name ==> {
            &&& self.name.inv()
            &&& self.name.awaiting()
            &&& self.name.history().len() < 3
            &&& self.name.address() == self.ptr
            &&& self.ptr >= 0x10000
            &&& self.hist@ == self.prefix@ + self.name.history()
            &&& self.pending == self.name.pending()
            &&& forall|m: Memory| #[trigger] agrees(m, self.prefix@) ==> mem_word(m, self.slot() as int) == Some(self.ptr)
                && self.result_model(m) == name_slot_search(m, self.addr, self.target@, self.limit, self.strict, self.off as int)
        }
        &&& self.stage is Sso ==> {
            &&& self.sso.inv()
            &&& self.sso.awaiting()
            &&& self.sso.history().len() < 4
            &&& self.sso.address() == self.slot()
            &&& self.hist@ == self.prefix@ + self.sso.history()
            &&& self.pending == self.sso.pending()
            &&& forall|m: Memory| #[trigger] agrees(m, self.prefix@) ==> self.result_model(m)
                == sso_then(m, self.addr, self.target@, self.limit, self.strict, self.off as int)
        }
    }

    /// Starts searching the object at `addr`, in the slots below `limit`, for
    /// one that names `target`.
    pub fn start(addr: u64, target: &str, limit: usize, strict: bool) -> (r: (NameSlotScan, Progress<Option<usize>>))
        requires
            limit <= usize::MAX - 8,
        ensures
            r.0.inv(),
            r.0.history() == Seq::<Answer>::empty(),
            forall|m: Memory| #[trigger] r.0.result_model(m) == name_slot_search(m, addr, target@, limit, strict, 0),
            r.0.reads_left() <= limit * 9 + 8,
            match r.1 {
                Progress::Read(q) => q == r.0.pending() && r.0.awaiting(),
                Progress::Done(x) => (x is None) && !r.0.awaiting() && limit == 0,
            },
    {
        let (name, _q1) = NameRead::start(0);
        let (sso, _q2) = SsoRead::start(0);
        let q = ReadRequest { addr: addr.wrapping_add(0), len: 8 };
        let s = NameSlotScan {
            addr,
            target: String::from_str(target),
            limit,
            strict,
            off: 0,
            stage: if limit == 0 {
                SlotStage::Finished
            } else {
                SlotStage::Word
            },
            ptr: 0,
            name,
            sso,
            pending: q,
            prefix: Ghost(Seq::empty()),
            hist: Ghost(Seq::empty()),
        };
        if limit == 0 {
            (s, Progress::Done(None))
        } else {
            (s, Progress::Read(q))
        }
    }

    /// The slot at `off` does not name the target: go on with the next slot.
    fn next_slot(&mut self) -> (p: Progress<Option<usize>>)
        requires
            old(self).limit <= usize::MAX - 8,
            old(self).off < old(self).limit,
            forall|m: Memory| #[trigger] agrees(m, old(self).hist@) ==> old(self).result_model(m)
                == name_slot_search(m, old(self).addr, old(self).target@, old(self).limit, old(self).strict, old(self).off + 8),
        ensures
            final(self).inv(),
            final(self).hist == old(self).hist,
            final(self).addr == old(self).addr,
            final(self).target == old(self).target,
            final(self).limit == old(self).limit,
            final(self).strict == old(self).strict,
            match p {
                Progress::Read(q) => q == final(self).pending && final(self).awaiting() && final(self).reads_left() == (
                old(self).limit - old(self).off - 8) * 9 + 8,
                Progress::Done(x) => !final(self).awaiting() && forall|m: Memory|
                    agrees(m, final(self).hist@) ==> x == #[trigger] final(self).result_model(m),
            },
    {
        self.off = self.off + 8;
        if self.off >= self.limit {
            self.stage = SlotStage::Finished;
            return Progress::Done(None);
        }
        self.stage = SlotStage::Word;
        let q = ReadRequest { addr: self.addr.wrapping_add(self.off as u64), len: 8 };
        self.pending = q;
        Progress::Read(q)
    }

    /// Tries the short-string reading of the current slot.
    fn enter_sso(&mut self) -> (p: Progress<Option<usize>>)
        requires
            old(self).limit <= usize::MAX - 8,
            old(self).off < old(self).limit,
            forall|m: Memory| #[trigger] agrees(m, old(self).hist@) ==> old(self).result_model(m)
                == sso_then(m, old(self).addr, old(self).target@, old(self).limit, old(self).strict, old(self).off as int),
        ensures
            final(self).inv(),
            final(self).hist == old(self).hist,
            final(self).addr == old(self).addr,
            final(self).target == old(self).target,
            final(self).limit == old(self).limit,
            final(self).strict == old(self).strict,
            match p {
                Progress::Read(q) => q == final(self).pending && final(self).awaiting() && final(self).reads_left() == (
                old(self).limit - old(self).off) * 9 + 4,
                Progress::Done(x) => !final(self).awaiting() && forall|m: Memory|
                    agrees(m, final(self).hist@) ==> x == #[trigger] final(self).result_model(m),
            },
    {
        let (sso, q) = SsoRead::start(self.addr.wrapping_add(self.off as u64));
        self.sso = sso;
        self.stage = SlotStage::Sso;
        self.pending = q;
        proof {
            self.prefix@ = self.hist@;
            assert(self.hist@ =~= self.prefix@ + self.sso.history());
        }
        Progress::Read(q)
    }

    /// Takes the answer to the pending read. When the search is over the result
    /// is the offset every memory agreeing with the answers gives.
    pub fn resume(&mut self, data: Option<Vec<u8>>) -> (p: Progress<Option<usize>>)
        requires
            old(self).inv(),
            old(self).awaiting(),
        ensures
            final(self).inv(),
            forall|m: Memory| #[trigger] final(self).result_model(m) == old(self).result_model(m),
            final(self).history() == old(self).history().push(answer_of(old(self).pending(), data)),
            match p {
                Progress::Read(q) => q == final(self).pending() && final(self).awaiting() && final(self).reads_left()
                    < old(self).reads_left(),
                Progress::Done(r) => !final(self).awaiting() && forall|m: Memory|
                    agrees(m, final(self).history()) ==> r == #[trigger] final(self).result_model(m),
            },
    {
        let ghost h0 = self.hist@;
        let ghost q0 = self.pending;
        let ghost ans = answer_of(self.pending, data);
        proof {
            self.hist@ = self.hist@.push(ans);
        }
        let ghost h1 = self.hist@;
        match self.stage {
            SlotStage::Word => {
                let w = word_of(&data);
                assert forall|m: Memory| #[trigger] agrees(m, h1) implies w == mem_word(m, q0.addr as int)
                    && self.result_model(m) == name_slot_search(m, self.addr, self.target@, self.limit, self.strict, self.off as int) by {
                    lemma_agrees_push(m, h0, ans);
                }
                match w {
                    None => {
                        if self.strict {
                            self.stage = SlotStage::Finished;
                            return Progress::Done(None);
                        }
                        return self.enter_sso();
                    },
                    Some(p) => {
                        if p >= 0x10000 {
                            let (name, q) = NameRead::start(p);
                            self.name = name;
                            self.ptr = p;
                            self.stage = SlotStage::Name;
                            self.pending = q;
                            proof {
                                self.prefix@ = h1;
                                assert(self.hist@ =~= self.prefix@ + self.name.history());
                            }
                            return Progress::Read(q);
                        }
                        return self.enter_sso();
                    },
                }
            },
            SlotStage::Name => {
                let r = self.name.resume(data);
                proof {
                    assert(self.hist@ =~= self.prefix@ + self.name.history());
                }
                match r {
                    Progress::Read(q) => {
                        self.pending = q;
                        assert forall|m: Memory| #[trigger] agrees(m, self.prefix@) implies mem_word(m, self.slot() as int) == Some(self.ptr)
                            && self.result_model(m) == name_slot_search(m, self.addr, self.target@, self.limit, self.strict, self.off as int) by {}
                        return Progress::Read(q);
                    },
                    Progress::Done(text) => {
                        let hit = match &text {
                            Some(s) => *s == self.target,
                            None => false,
                        };
                        assert forall|m: Memory| #[trigger] agrees(m, self.hist@) implies hit == (name_fmt_model(m, self.ptr) == Some(self.target@))
                            && mem_word(m, self.slot() as int) == Some(self.ptr)
                            && self.result_model(m) == name_slot_search(m, self.addr, self.target@, self.limit, self.strict, self.off as int) by {
                            lemma_agrees_suffix(m, self.prefix@, self.name.history());
                        }
                        if hit {
                            self.stage = SlotStage::Finished;
                            return Progress::Done(Some(self.off));
                        }
                        return self.enter_sso();
                    },
                }
            },
            SlotStage::Sso => {
                let r = self.sso.resume(data);
                proof {
                    assert(self.hist@ =~= self.prefix@ + self.sso.history());
                }
                match r {
                    Progress::Read(q) => {
                        self.pending = q;
                        return Progress::Read(q);
                    },
                    Progress::Done(text) => {
                        let hit = match &text {
                            Some(s) => *s == self.target,
                            None => false,
                        };
                        assert forall|m: Memory| #[trigger] agrees(m, self.hist@) implies hit == (sso_model(m, self.slot()) == Some(self.target@))
                            && self.result_model(m) == sso_then(m, self.addr, self.target@, self.limit, self.strict, self.off as int) by {
                            lemma_agrees_suffix(m, self.prefix@, self.sso.history());
                        }
                        if hit {
                            self.stage = SlotStage::Finished;
                            return Progress::Done(Some(self.off));
                        }
                        return self.next_slot();
                    },
                }
            },
            SlotStage::Finished => {
                return Progress::Done(None);
            },
        }
    }
}

/// The size of the region searched for the class descriptor.
pub const DESCRIPTOR_LIMIT: usize = 0x80;

/// The first slot searched for the class descriptor: slot 0 holds the
/// object's own vtable, which is no descriptor.
pub const DESCRIPTOR_FIRST: usize = 8;

/// The first 8-aligned offset from `off` below `0x80` whose word points (at or
/// above `0x10000`) to an object whose own first word lies in
/// `[0x10000, 0x7fffffffffff)`. Slots holding a smaller word are passed over; a
/// word that cannot be read ends the search without a result.
pub open spec fn descriptor_search(m: Memory, addr: u64, off: int) -> Option<usize>
    decreases 0x80 + 8 - off,
{
    if off < 0 || off >= 0x80 {
        None
    } else {
        match mem_word(m, wadd(addr, off as u64) as int) {
            None => None,
            Some(p) => if p < 0x10000 {
                descriptor_search(m, addr, off + 8)
            } else {
                match mem_word(m, p as int) {
                    None => None,
                    Some(vt) => if 0x10000 <= vt < 0x7fffffffffff {
                        Some(off as usize)
                    } else {
                        descriptor_search(m, addr, off + 8)
                    },
                }
            },
        }
    }
}

/// The slot of an instance that holds its per-class descriptor pointer: the
/// search from the first slot after the vtable.
pub open spec fn descriptor_of(m: Memory, addr: u64) -> Option<usize> {
    descriptor_search(m, addr, DESCRIPTOR_FIRST as int)
}

/// Searches an instance for its class descriptor slot (see
/// `descriptor_of`), one memory read at a time.
pub struct DescriptorScan {
    addr: u64,
    off: usize,
    at_target: bool,
    finished: bool,
    ptr: u64,
    pending: ReadRequest,
    hist: Ghost<Seq<Answer>>,
}

impl DescriptorScan {
    pub closed spec fn history(&self) -> Seq<Answer> {
        self.hist@
    }

    pub closed spec fn pending(&self) -> ReadRequest {
        self.pending
    }

    pub closed spec fn awaiting(&self) -> bool {
        !self.finished
    }

    pub closed spec fn result_model(&self, m: Memory) -> Option<usize> {
        descriptor_of(m, self.addr)
    }

    /// An upper bound on the reads the search still asks for: three for each
    /// slot left, fewer within the current slot.
    pub closed spec fn reads_left(&self) -> nat {
        if self.finished {
            0
        } else {
            ((DESCRIPTOR_LIMIT - self.off) * 3 + if self.at_target {
                1int
            } else {
                2int
            }) as nat
        }
    }

    pub closed spec fn inv(&self) -> bool {
        &&& !self.finished ==> self.off < DESCRIPTOR_LIMIT
        &&& !self.finished && !self.at_target ==> {
            &&& self.pending == (ReadRequest { addr: wadd(self.addr, self.off as u64), len: 8 })
            &&& forall|m: Memory| #[trigger] agrees(m, self.hist@) ==> self.result_model(m) == descriptor_search(m, self.addr, self.off as int)
        }
        &&& !self.finished && self.at_target ==> {
            &&& self.pending == (ReadRequest { addr: self.ptr, len: 8 })
            &&& self.ptr >= 0x10000
            &&& forall|m: Memory| #[trigger] agrees(m, self.hist@) ==> mem_word(m, wadd(self.addr, self.off as u64) as int) == Some(self.ptr)
                && self.result_model(m) == descriptor_search(m, self.addr, self.off as int)
        }
    }

    /// Starts searching the instance at `addr`; the first read is the word
    /// after its vtable pointer.
    pub fn start(addr: u64) -> (r: (DescriptorScan, ReadRequest))
        ensures
            r.0.inv(),
            r.0.awaiting(),
            r.0.history() == Seq::<Answer>::empty(),
            r.1 == r.0.pending(),
            forall|m: Memory| #[trigger] r.0.result_model(m) == descriptor_of(m, addr),
            r.0.reads_left() <= DESCRIPTOR_LIMIT * 3,
    {
        let q = ReadRequest { addr: addr.wrapping_add(DESCRIPTOR_FIRST as u64), len: 8 };
        (
            DescriptorScan {
                addr,
                off: DESCRIPTOR_FIRST,
                at_target: false,
                finished: false,
                ptr: 0,
                pending: q,
                hist: Ghost(Seq::empty()),
            },
            q,
        )
    }

    fn advance(&mut self) -> (p: Progress<Option<usize>>)
        requires
            !old(self).finished,
            old(self).off < DESCRIPTOR_LIMIT,
            forall|m: Memory| #[trigger] agrees(m, old(self).hist@) ==> old(self).result_model(m)
                == descriptor_search(m, old(self).addr, old(self).off + 8),
        ensures
            final(self).inv(),
            final(self).hist == old(self).hist,
            final(self).addr == old(self).addr,
            final(self).off == old(self).off + 8,
            !final(self).at_target,
            match p {
                Progress::Read(q) => q == final(self).pending && final(self).awaiting(),
                Progress::Done(x) => !final(self).awaiting() && forall|m: Memory|
                    agrees(m, final(self).hist@) ==> x == #[trigger] final(self).result_model(m),
            },
    {
        self.off = self.off + 8;
        self.at_target = false;
        if self.off >= DESCRIPTOR_LIMIT {
            self.finished = true;
            return Progress::Done(None);
        }
        let q = ReadRequest { addr: self.addr.wrapping_add(self.off as u64), len: 8 };
        self.pending = q;
        Progress::Read(q)
    }

    /// Takes the answer to the pending read. When the search is over the result
    /// is the offset every memory agreeing with the answers gives.
    pub fn resume(&mut self, data: Option<Vec<u8>>) -> (p: Progress<Option<usize>>)
        requires
            old(self).inv(),
            old(self).awaiting(),
        ensures
            final(self).inv(),
            forall|m: Memory| #[trigger] final(self).result_model(m) == old(self).result_model(m),
            final(self).history() == old(self).history().push(answer_of(old(self).pending(), data)),
            match p {
                Progress::Read(q) => q == final(self).pending() && final(self).awaiting() && final(self).reads_left()
                    < old(self).reads_left(),
                Progress::Done(r) => !final(self).awaiting() && forall|m: Memory|
                    agrees(m, final(self).history()) ==> r == #[trigger] final(self).result_model(m),
            },
    {
        let ghost h0 = self.hist@;
        let ghost q0 = self.pending;
        let ghost ans = answer_of(self.pending, data);
        proof {
            self.hist@ = self.hist@.push(ans);
        }
        let ghost h1 = self.hist@;
        let w = word_of(&data);
        assert forall|m: Memory| #[trigger] agrees(m, h1) implies w == mem_word(m, q0.addr as int)
            && self.result_model(m) == descriptor_search(m, self.addr, self.off as int)
            && (self.at_target ==> mem_word(m, wadd(self.addr, self.off as u64) as int) == Some(self.ptr)) by {
            lemma_agrees_push(m, h0, ans);
        }
        match w {
            None => {
                self.finished = true;
                Progress::Done(None)
            },
            Some(v) => {
                if !self.at_target {
                    if v < 0x10000 {
                        return self.advance();
                    }
                    self.ptr = v;
                    self.at_target = true;
                    let q = ReadRequest { addr: v, len: 8 };
                    self.pending = q;
                    Progress::Read(q)
                } else {
                    if 0x10000 <= v && v < 0x7fffffffffff {
                        self.finished = true;
                        return Progress::Done(Some(self.off));
                    }
                    self.advance()
                }
            },
        }
    }
}

/// Which class names a typed slot search accepts.
pub enum ClassRule {
    /// Exactly this class name.
    Named(String),
    /// A name whose stem is `Part`, `WedgePart` or `CylinderPart`.
    PlainPart,
    /// Either of two class names.
    Either(String, String),
    /// A name holding `Part`, or `BasePart@RBX`.
    BodyPart,
    /// A name holding `CelestialBody` or `Sun`.
    Celestial,
    /// A name holding `Script`, `ExecutionContext` or `Vm`.
    ScriptRuntime,
}

pub open spec fn rule_accepts(rule: ClassRule, n: Seq<char>) -> bool {
    match rule {
        ClassRule::Named(s) => n == s@,
        ClassRule::PlainPart => stem_of(n) == "Part"@ || stem_of(n) == "WedgePart"@ || stem_of(n) == "CylinderPart"@,
        ClassRule::Either(a, b) => n == a@ || n == b@,
        ClassRule::BodyPart => body_part_class_name(n),
        ClassRule::Celestial => celestial_class_name(n),
        ClassRule::ScriptRuntime => script_runtime_class_name(n),
    }
}

/// Whether the rule accepts a class name.
pub fn accepts(rule: &ClassRule, name: &str) -> (r: bool)
    ensures
        r == rule_accepts(*rule, name@),
{
    match rule {
        ClassRule::Named(s) => str_eq(name, s.as_str()),
        ClassRule::PlainPart => {
            let st = class_stem(name);
            str_eq(st.as_str(), "Part") || str_eq(st.as_str(), "WedgePart") || str_eq(st.as_str(), "CylinderPart")
        },
        ClassRule::Either(a, b) => str_eq(name, a.as_str()) || str_eq(name, b.as_str()),
        ClassRule::BodyPart => is_body_part_class(name),
        ClassRule::Celestial => is_celestial_class(name),
        ClassRule::ScriptRuntime => is_script_runtime_class(name),
    }
}

/// The objects pointed to from the 8-aligned slots from `off` below `limit`
/// of the object at `addr` whose class the rule accepts, added to `found` in
/// slot order until `max` are known. Unreadable slots, words below `0x10000`
/// and objects without readable RTTI are passed over.
pub open spec fn typed_collect(
    m: Memory,
    addr: u64,
    rule: ClassRule,
    limit: usize,
    max: nat,
    off: int,
    found: Seq<u64>,
) -> Seq<u64>
    decreases limit + 8 - off,
{
    if found.len() >= max || off < 0 || off >= limit {
        found
    } else {
        let next = match mem_word(m, wadd(addr, off as u64) as int) {
            None => found,
            Some(p) => if p >= 0x10000 && (rtti_model(m, p) matches Some(n) && rule_accepts(rule, n)) {
                found.push(p)
            } else {
                found
            },
        };
        typed_collect(m, addr, rule, limit, max, off + 8, next)
    }
}

/// The collection keeps what it had, adds at most up to `max`, and adds only
/// pointers of at least `0x10000` to objects whose class the rule accepts.
pub proof fn law_typed_collect(m: Memory, addr: u64, rule: ClassRule, limit: usize, max: nat, off: int, found: Seq<u64>)
    requires
        found.len() <= max,
    ensures
        ({
            let r = typed_collect(m, addr, rule, limit, max, off, found);
            &&& found.len() <= r.len() <= max
            &&& r.take(found.len() as int) == found
            &&& forall|i: int| found.len() <= i < r.len() ==> #[trigger] r[i] >= 0x10000
                && (rtti_model(m, r[i]) matches Some(n) && rule_accepts(rule, n))
        }),
    decreases limit + 8 - off,
{
    if found.len() >= max || off < 0 || off >= limit {
        assert(found.take(found.len() as int) =~= found);
    } else {
        let next = match mem_word(m, wadd(addr, off as u64) as int) {
            None => found,
            Some(p) => if p >= 0x10000 && (rtti_model(m, p) matches Some(n) && rule_accepts(rule, n)) {
                found.push(p)
            } else {
                found
            },
        };
        law_typed_collect(m, addr, rule, limit, max, off + 8, next);
        let r = typed_collect(m, addr, rule, limit, max, off, found);
        assert(r == typed_collect(m, addr, rule, limit, max, off + 8, next));
        assert(r.take(next.len() as int) == next);
        assert(r.take(found.len() as int) =~= next.take(found.len() as int));
        assert(next.take(found.len() as int) =~= found);
        assert forall|i: int| found.len() <= i < r.len() implies #[trigger] r[i] >= 0x10000
            && (rtti_model(m, r[i]) matches Some(n) && rule_accepts(rule, n)) by {
            if i < next.len() {
                assert(r[i] == r.take(next.len() as int)[i]);
                assert(next[i] == r[i]);
            }
        }
    }
}

/// A slot found by the name search is on the 8-byte grid below the limit, and
/// names the target: through its pointer to an engine-format name, or through
/// its short-string object.
pub proof fn law_name_slot_hit(m: Memory, addr: u64, target: Seq<char>, limit: usize, strict: bool, off: int)
    ensures
        name_slot_search(m, addr, target, limit, strict, off) matches Some(o) ==> {
            &&& off <= o < limit
            &&& (o - off) % 8 == 0
            &&& (mem_word(m, wadd(addr, o as u64) as int) matches Some(p) && p >= 0x10000 && name_fmt_model(m, p) == Some(target))
                || sso_model(m, wadd(addr, o as u64)) == Some(target)
        },
    decreases limit + 8 - off,
{
    if off < 0 || off >= limit {
    } else {
        law_name_slot_hit(m, addr, target, limit, strict, off + 8);
    }
}

/// Collects pointed-to objects of accepted classes (see `typed_collect`), one
/// memory read at a time.
pub struct TypedCollect {
    addr: u64,
    rule: ClassRule,
    limit: usize,
    max: usize,
    off: usize,
    probing: bool,
    finished: bool,
    found: Vec<u64>,
    ptr: u64,
    probe: RttiProbe,
    pending: ReadRequest,
    prefix: Ghost<Seq<Answer>>,
    hist: Ghost<Seq<Answer>>,
}

impl TypedCollect {
    pub closed spec fn history(&self) -> Seq<Answer> {
        self.hist@
    }

    pub closed spec fn pending(&self) -> ReadRequest {
        self.pending
    }

    pub closed spec fn awaiting(&self) -> bool {
        !self.finished
    }

    pub closed spec fn result_model(&self, m: Memory) -> Seq<u64> {
        typed_collect(m, self.addr, self.rule, self.limit, self.max as nat, 0, Seq::empty())
    }

    /// An upper bound on the reads the collection still asks for: six for
    /// each slot left, fewer within the current slot.
    pub closed spec fn reads_left(&self) -> nat {
        if self.finished {
            0
        } else {
            ((self.limit - self.off) * 6 + if self.probing {
                4 - self.probe.history().len()
            } else {
                5
            }) as nat
        }
    }

    pub closed spec fn inv(&self) -> bool {
        &&& self.limit <= usize::MAX - 8
        &&& !self.finished ==> {
            &&& self.off < self.limit
            &&& self.found@.len() < self.max
            &&& !self.probing ==> {
                &&& self.pending == (ReadRequest { addr: wadd(self.addr, self.off as u64), len: 8 })
                &&& forall|m: Memory| #[trigger] agrees(m, self.hist@) ==> self.result_model(m)
                    == typed_collect(m, self.addr, self.rule, self.limit, self.max as nat, self.off as int, self.found@)
            }
            &&& self.probing ==> {
                &&& self.probe.inv()
                &&& self.probe.awaiting()
                &&& self.probe.history().len() < 4
                &&& self.probe.address() == self.ptr
                &&& self.ptr >= 0x10000
                &&& self.hist@ == self.prefix@ + self.probe.history()
                &&& self.pending == self.probe.pending()
                &&& forall|m: Memory| #[trigger] agrees(m, self.prefix@) ==> mem_word(m, wadd(self.addr, self.off as u64) as int)
                    == Some(self.probe.address()) && self.result_model(m)
                    == typed_collect(m, self.addr, self.rule, self.limit, self.max as nat, self.off as int, self.found@)
            }
        }
    }

    /// Starts collecting, from the slots of the object at `addr` below `limit`,
    /// at most `max` objects whose class the rule accepts.
    pub fn start(addr: u64, rule: ClassRule, limit: usize, max: usize) -> (r: (TypedCollect, Progress<Vec<u64>>))
        requires
            limit <= usize::MAX - 8,
        ensures
            r.0.inv(),
            r.0.history() == Seq::<Answer>::empty(),
            forall|m: Memory| #[trigger] r.0.result_model(m) == typed_collect(m, addr, rule, limit, max as nat, 0, Seq::empty()),
            r.0.reads_left() <= limit * 6 + 5,
            match r.1 {
                Progress::Read(q) => q == r.0.pending() && r.0.awaiting(),
                Progress::Done(x) => !r.0.awaiting() && x@ == Seq::<u64>::empty() && (limit == 0 || max == 0),
            },
    {
        let (probe, _q) = RttiProbe::start(0);
        let q = ReadRequest { addr: addr.wrapping_add(0), len: 8 };
        let done = limit == 0 || max == 0;
        let c = TypedCollect {
            addr,
            rule,
            limit,
            max,
            off: 0,
            probing: false,
            finished: done,
            found: Vec::new(),
            ptr: 0,
            probe,
            pending: q,
            prefix: Ghost(Seq::empty()),
            hist: Ghost(Seq::empty()),
        };
        if done {
            (c, Progress::Done(Vec::new()))
        } else {
            (c, Progress::Read(q))
        }
    }

    /// Moves to the next slot, or ends when the slots or the quota run out.
    fn advance(&mut self) -> (p: Progress<Vec<u64>>)
        requires
            !old(self).finished,
            old(self).limit <= usize::MAX - 8,
            old(self).off < old(self).limit,
            old(self).found@.len() <= old(self).max,
            forall|m: Memory| #[trigger] agrees(m, old(self).hist@) ==> old(self).result_model(m)
                == typed_collect(m, old(self).addr, old(self).rule, old(self).limit, old(self).max as nat, old(self).off + 8, old(self).found@),
        ensures
            final(self).inv(),
            final(self).hist == old(self).hist,
            final(self).addr == old(self).addr,
            final(self).rule == old(self).rule,
            final(self).limit == old(self).limit,
            final(self).max == old(self).max,
            final(self).off == old(self).off + 8,
            !final(self).probing,
            match p {
                Progress::Read(q) => q == final(self).pending && final(self).awaiting(),
                Progress::Done(x) => !final(self).awaiting() && forall|m: Memory|
                    agrees(m, final(self).hist@) ==> x@ == #[trigger] final(self).result_model(m),
            },
    {
        self.off = self.off + 8;
        self.probing = false;
        if self.off >= self.limit || self.found.len() >= self.max {
            self.finished = true;
            return Progress::Done(self.found.clone());
        }
        let q = ReadRequest { addr: self.addr.wrapping_add(self.off as u64), len: 8 };
        self.pending = q;
        Progress::Read(q)
    }

    /// Takes the answer to the pending read. When the collection is over the
    /// result is the list every memory agreeing with the answers gives.
    pub fn resume(&mut self, data: Option<Vec<u8>>) -> (p: Progress<Vec<u64>>)
        requires
            old(self).inv(),
            old(self).awaiting(),
        ensures
            final(self).inv(),
            forall|m: Memory| #[trigger] final(self).result_model(m) == old(self).result_model(m),
            final(self).history() == old(self).history().push(answer_of(old(self).pending(), data)),
            match p {
                Progress::Read(q) => q == final(self).pending() && final(self).awaiting() && final(self).reads_left()
                    < old(self).reads_left(),
                Progress::Done(r) => !final(self).awaiting() && forall|m: Memory|
                    agrees(m, final(self).history()) ==> r@ == #[trigger] final(self).result_model(m),
            },
    {
        let ghost h0 = self.hist@;
        let ghost q0 = self.pending;
        let ghost ans = answer_of(self.pending, data);
        proof {
            self.hist@ = self.hist@.push(ans);
        }
        let ghost h1 = self.hist@;
        if !self.probing {
            let w = word_of(&data);
            assert forall|m: Memory| #[trigger] agrees(m, h1) implies w == mem_word(m, q0.addr as int)
                && self.result_model(m) == typed_collect(m, self.addr, self.rule, self.limit, self.max as nat, self.off as int, self.found@) by {
                lemma_agrees_push(m, h0, ans);
            }
            match w {
                Some(p) => {
                    if p >= 0x10000 {
                        let (probe, q) = RttiProbe::start(p);
                        self.probe = probe;
                        self.ptr = p;
                        self.probing = true;
                        self.pending = q;
                        proof {
                            self.prefix@ = h1;
                            assert(self.hist@ =~= self.prefix@ + self.probe.history());
                        }
                        return Progress::Read(q);
                    }
                },
                None => {},
            }
            return self.advance();
        } else {
            let r = self.probe.resume(data);
            proof {
                assert(self.hist@ =~= self.prefix@ + self.probe.history());
            }
            match r {
                Progress::Read(q) => {
                    self.pending = q;
                    return Progress::Read(q);
                },
                Progress::Done(info) => {
                    let ghost ptr = self.probe.address();
                    let ghost found0 = self.found@;
                    let hit = match &info {
                        Some(i) => accepts(&self.rule, i.name.as_str()),
                        None => false,
                    };
                    assert forall|m: Memory| #[trigger] agrees(m, self.hist@) implies hit == (rtti_model(m, ptr) matches Some(n)
                        && rule_accepts(self.rule, n)) && mem_word(m, wadd(self.addr, self.off as u64) as int) == Some(ptr)
                        && self.result_model(m) == typed_collect(m, self.addr, self.rule, self.limit, self.max as nat, self.off as int, found0) by {
                        lemma_agrees_suffix(m, self.prefix@, self.probe.history());
                        assert(info_view(info) == rtti_model(m, ptr));
                    }
                    if hit {
                        self.found.push(self.ptr);
                    }
                    return self.advance();
                },
            }
        }
    }
}

} // verus!
