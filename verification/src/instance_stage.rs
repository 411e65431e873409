use vstd::prelude::*;

use crate::classify::{class_stem, stem_of};
use crate::lists::{list_search, ListCheck, ListProbe};
use crate::memory::{agrees, answer_of, lemma_agrees_push, lemma_agrees_suffix, Answer, Memory, Progress, ReadRequest};
use crate::registry::{spec_add_offset, Dumper, DumperView};
use crate::rtti::{find_from, info_view, rtti_model, RttiFind, RttiProbe};
use crate::slots::{descriptor_of, name_slot_search, DescriptorScan, NameSlotScan};

verus! {

/// Where the parent pointer is taken to sit when no pointer to the data model
/// is found.
pub const DEFAULT_PARENT_OFFSET: usize = 0x70;

/// The instance layout read from the workspace object.
pub struct InstanceLayout {
    pub name: Option<usize>,
    pub parent: usize,
    pub children: Option<(usize, usize)>,
    pub descriptor: Option<usize>,
    pub class_name: Option<usize>,
}

/// The slot naming the workspace.
pub open spec fn name_model(m: Memory, ws: u64) -> Option<usize> {
    name_slot_search(m, ws, "Workspace"@, 0x400, false, 0)
}

/// The parent pointer's offset: the slot pointing to the data model, else the
/// default.
pub open spec fn parent_model(m: Memory, ws: u64) -> usize {
    match find_from(m, ws, "DataModel@RBX"@, 0x400, 8, 0) {
        Some(p) => p,
        None => DEFAULT_PARENT_OFFSET,
    }
}

/// The child list: checked by parent links, failing that by RTTI, failing that
/// loosely.
pub open spec fn children_choice(m: Memory, ws: u64, parent: usize) -> Option<(usize, usize)> {
    match list_search(m, ListCheck::ParentLink, ws, parent, 0) {
        Some(x) => Some(x),
        None => match list_search(m, ListCheck::Typed, ws, parent, 0) {
            Some(x) => Some(x),
            None => list_search(m, ListCheck::Loose, ws, parent, 0),
        },
    }
}

/// The slot naming the workspace's class (its RTTI name before the first `@`),
/// searched strictly in the first `0x80` bytes.
pub open spec fn class_name_model(m: Memory, ws: u64) -> Option<usize> {
    match rtti_model(m, ws) {
        Some(n) => name_slot_search(m, ws, stem_of(n), 0x80, true, 0),
        None => None,
    }
}

/// The whole layout read from the workspace at `ws`.
pub open spec fn layout_matches(l: InstanceLayout, m: Memory, ws: u64) -> bool {
    &&& l.name == name_model(m, ws)
    &&& l.parent == parent_model(m, ws)
    &&& l.children == children_choice(m, ws, l.parent)
    &&& l.descriptor == descriptor_of(m, ws)
    &&& l.class_name == class_name_model(m, ws)
}

pub enum InstancePhase {
    Name,
    Parent,
    Lists,
    Descriptor,
    Class,
    ClassName,
    Finished,
}

pub open spec fn phase_index(p: InstancePhase) -> nat {
    match p {
        InstancePhase::Name => 0,
        InstancePhase::Parent => 1,
        InstancePhase::Lists => 2,
        InstancePhase::Descriptor => 3,
        InstancePhase::Class => 4,
        InstancePhase::ClassName => 5,
        InstancePhase::Finished => 6,
    }
}

/// The reads set aside for the list-search modes after `mode`.
pub open spec fn list_rest(mode: ListCheck) -> nat {
    match mode {
        ListCheck::ParentLink => 1156540 + 4617148,
        ListCheck::Typed => 4617148,
        ListCheck::Loose => 0,
    }
}

/// Reads the instance layout from the workspace object, one memory read at a
/// time: the name slot, the parent slot, the child list (three checks in
/// turn), the class descriptor and the class-name slot.
pub struct InstanceProbe {
    ws: u64,
    phase: InstancePhase,
    mode: ListCheck,
    name: Option<usize>,
    parent: usize,
    children: Option<(usize, usize)>,
    descriptor: Option<usize>,
    class_name: Option<usize>,
    name_scan: NameSlotScan,
    find: RttiFind,
    lists: ListProbe,
    desc: DescriptorScan,
    class_probe: RttiProbe,
    class_scan: NameSlotScan,
    class: Ghost<Seq<char>>,
    pending: ReadRequest,
    prefix: Ghost<Seq<Answer>>,
    hist: Ghost<Seq<Answer>>,
}

impl InstanceProbe {
    pub closed spec fn history(&self) -> Seq<Answer> {
        self.hist@
    }

    pub closed spec fn pending(&self) -> ReadRequest {
        self.pending
    }

    pub closed spec fn awaiting(&self) -> bool {
        !(self.phase is Finished)
    }

    pub closed spec fn workspace(&self) -> u64 {
        self.ws
    }

    /// An upper bound on the reads the probe still asks for: what the current
    /// search still needs, and a fixed allowance for each later one.
    pub closed spec fn reads_left(&self) -> nat {
        match self.phase {
            InstancePhase::Name => self.name_scan.reads_left() + 1 + 6150 + 6930228 + 1551,
            InstancePhase::Parent => self.find.reads_left() + 1 + 6930228 + 1551,
            InstancePhase::Lists => self.lists.reads_left() + 1 + list_rest(self.mode) + 1551,
            InstancePhase::Descriptor => self.desc.reads_left() + 1 + 1166,
            InstancePhase::Class => ((4 - self.class_probe.history().len()) + 1 + 1161) as nat,
            InstancePhase::ClassName => self.class_scan.reads_left() + 1,
            InstancePhase::Finished => 0,
        }
    }

    closed spec fn done_facts(&self, m: Memory) -> bool {
        let i = phase_index(self.phase);
        &&& i > 0 ==> self.name == name_model(m, self.ws)
        &&& i > 1 ==> self.parent == parent_model(m, self.ws)
        &&& i > 2 ==> self.children == children_choice(m, self.ws, self.parent)
        &&& i > 3 ==> self.descriptor == descriptor_of(m, self.ws)
        &&& i > 5 ==> self.class_name == class_name_model(m, self.ws)
    }

    closed spec fn list_facts(&self, m: Memory) -> bool {
        &&& !(self.mode is ParentLink) ==> list_search(m, ListCheck::ParentLink, self.ws, self.parent, 0) is None
        &&& self.mode is Loose ==> list_search(m, ListCheck::Typed, self.ws, self.parent, 0) is None
    }

    pub closed spec fn inv(&self) -> bool {
        &&& forall|m: Memory| #[trigger] agrees(m, self.hist@) ==> self.done_facts(m)
        &&& self.phase is Name ==> {
            &&& self.name_scan.inv()
            &&& self.name_scan.awaiting()
            &&& self.hist@ == self.prefix@ + self.name_scan.history()
            &&& self.pending == self.name_scan.pending()
            &&& forall|m: Memory| #[trigger] self.name_scan.result_model(m) == name_model(m, self.ws)
        }
        &&& self.phase is Parent ==> {
            &&& self.find.inv()
            &&& self.find.awaiting()
            &&& self.hist@ == self.prefix@ + self.find.history()
            &&& self.pending == self.find.pending()
            &&& forall|m: Memory| #[trigger] self.find.result_model(m) == find_from(m, self.ws, "DataModel@RBX"@, 0x400, 8, 0)
        }
        &&& self.phase is Lists ==> {
            &&& self.lists.inv()
            &&& self.lists.awaiting()
            &&& self.hist@ == self.prefix@ + self.lists.history()
            &&& self.pending == self.lists.pending()
            &&& forall|m: Memory| #[trigger] self.lists.result_model(m) == list_search(m, self.mode, self.ws, self.parent, 0)
            &&& forall|m: Memory| #[trigger] agrees(m, self.hist@) ==> self.list_facts(m)
        }
        &&& self.phase is Descriptor ==> {
            &&& self.desc.inv()
            &&& self.desc.awaiting()
            &&& self.hist@ == self.prefix@ + self.desc.history()
            &&& self.pending == self.desc.pending()
            &&& forall|m: Memory| #[trigger] self.desc.result_model(m) == descriptor_of(m, self.ws)
        }
        &&& self.phase is Class ==> {
            &&& self.class_probe.inv()
            &&& self.class_probe.awaiting()
            &&& self.class_probe.history().len() < 4
            &&& self.class_probe.address() == self.ws
            &&& self.hist@ == self.prefix@ + self.class_probe.history()
            &&& self.pending == self.class_probe.pending()
        }
        &&& self.phase is ClassName ==> {
            &&& self.class_scan.inv()
            &&& self.class_scan.awaiting()
            &&& self.hist@ == self.prefix@ + self.class_scan.history()
            &&& self.pending == self.class_scan.pending()
            &&& forall|m: Memory| #[trigger] self.class_scan.result_model(m) == name_slot_search(m, self.ws, stem_of(self.class@), 0x80, true, 0)
            &&& forall|m: Memory| #[trigger] agrees(m, self.hist@) ==> rtti_model(m, self.ws) == Some(self.class@)
        }
    }

    /// Starts reading the layout of the workspace at `ws`.
    pub fn start(ws: u64) -> (r: (InstanceProbe, ReadRequest))
        ensures
            r.0.inv(),
            r.0.awaiting(),
            r.0.workspace() == ws,
            r.0.history() == Seq::<Answer>::empty(),
            r.1 == r.0.pending(),
            r.0.reads_left() <= 0x400 * 9 + 8 + 1 + 6150 + 6930228 + 1551,
    {
        let (name_scan, p) = NameSlotScan::start(ws, "Workspace", 0x400, false);
        let (find, _p1) = RttiFind::start(ws, "DataModel@RBX", 0x400, 8);
        let (lists, _p2) = ListProbe::start(ListCheck::ParentLink, ws, DEFAULT_PARENT_OFFSET);
        let (desc, _q3) = DescriptorScan::start(ws);
        let (class_probe, _q4) = RttiProbe::start(ws);
        let (class_scan, _p5) = NameSlotScan::start(ws, "", 0x80, true);
        let q = match p {
            Progress::Read(q) => q,
            Progress::Done(_) => ReadRequest { addr: ws, len: 8 },
        };
        let s = InstanceProbe {
            ws,
            phase: InstancePhase::Name,
            mode: ListCheck::ParentLink,
            name: None,
            parent: DEFAULT_PARENT_OFFSET,
            children: None,
            descriptor: None,
            class_name: None,
            name_scan,
            find,
            lists,
            desc,
            class_probe,
            class_scan,
            class: Ghost(Seq::empty()),
            pending: q,
            prefix: Ghost(Seq::empty()),
            hist: Ghost(Seq::empty()),
        };
        proof {
            assert(s.hist@ =~= s.prefix@ + s.name_scan.history());
        }
        (s, q)
    }

    fn begin_parent(&mut self) -> (p: Progress<InstanceLayout>)
        requires
            old(self).phase is Name,
            forall|m: Memory| #[trigger] agrees(m, old(self).hist@) ==> old(self).name == name_model(m, old(self).ws),
        ensures
            final(self).inv(),
            final(self).hist == old(self).hist,
            final(self).ws == old(self).ws,
            match p {
                Progress::Read(q) => q == final(self).pending && final(self).awaiting() && final(self).reads_left()
                    <= 6150 + 6930228 + 1551,
                Progress::Done(l) => !final(self).awaiting() && forall|m: Memory|
                    agrees(m, final(self).hist@) ==> layout_matches(l, m, final(self).ws),
            },
    {
        let (find, p) = RttiFind::start(self.ws, "DataModel@RBX", 0x400, 8);
        self.find = find;
        self.phase = InstancePhase::Parent;
        proof {
            self.prefix@ = self.hist@;
            assert(self.hist@ =~= self.prefix@ + self.find.history());
        }
        match p {
            Progress::Read(q) => {
                self.pending = q;
                Progress::Read(q)
            },
            Progress::Done(_) => {
                self.parent = DEFAULT_PARENT_OFFSET;
                self.begin_lists()
            },
        }
    }

    fn begin_lists(&mut self) -> (p: Progress<InstanceLayout>)
        requires
            phase_index(old(self).phase) == 1,
            forall|m: Memory| #[trigger] agrees(m, old(self).hist@) ==> old(self).name == name_model(m, old(self).ws)
                && old(self).parent == parent_model(m, old(self).ws),
        ensures
            final(self).inv(),
            final(self).hist == old(self).hist,
            final(self).ws == old(self).ws,
            match p {
                Progress::Read(q) => q == final(self).pending && final(self).awaiting() && final(self).reads_left()
                    <= 6930228 + 1551,
                Progress::Done(l) => !final(self).awaiting() && forall|m: Memory|
                    agrees(m, final(self).hist@) ==> layout_matches(l, m, final(self).ws),
            },
    {
        self.phase = InstancePhase::Lists;
        self.mode = ListCheck::ParentLink;
        self.next_list_mode()
    }

    /// Starts the list search in the current mode; a mode that finishes at once
    /// without a list hands over to the next.
    fn next_list_mode(&mut self) -> (p: Progress<InstanceLayout>)
        requires
            old(self).phase is Lists,
            forall|m: Memory| #[trigger] agrees(m, old(self).hist@) ==> old(self).name == name_model(m, old(self).ws)
                && old(self).parent == parent_model(m, old(self).ws) && old(self).list_facts(m),
        ensures
            final(self).inv(),
            final(self).hist == old(self).hist,
            final(self).ws == old(self).ws,
            match p {
                Progress::Read(q) => q == final(self).pending && final(self).awaiting() && final(self).reads_left()
                    <= 1156540 + list_rest(old(self).mode) + 1551 + (if old(self).mode is Loose { 3460608int } else { 0int }),
                Progress::Done(l) => !final(self).awaiting() && forall|m: Memory|
                    agrees(m, final(self).hist@) ==> layout_matches(l, m, final(self).ws),
            },
        decreases (if old(self).mode is ParentLink {
            2int
        } else if old(self).mode is Typed {
            1int
        } else {
            0int
        }),
    {
        let (lists, p) = ListProbe::start(self.mode, self.ws, self.parent);
        self.lists = lists;
        proof {
            self.prefix@ = self.hist@;
            assert(self.hist@ =~= self.prefix@ + self.lists.history());
        }
        match p {
            Progress::Read(q) => {
                self.pending = q;
                Progress::Read(q)
            },
            Progress::Done(x) => {
                assert forall|m: Memory| #[trigger] agrees(m, self.hist@) implies x == list_search(m, self.mode, self.ws, self.parent, 0) by {
                    assert(self.lists.result_model(m) == list_search(m, self.mode, self.ws, self.parent, 0));
                }
                self.list_finished(x)
            },
        }
    }

    /// The list search in the current mode gave `x`.
    fn list_finished(&mut self, x: Option<(usize, usize)>) -> (p: Progress<InstanceLayout>)
        requires
            old(self).phase is Lists,
            forall|m: Memory| #[trigger] agrees(m, old(self).hist@) ==> old(self).name == name_model(m, old(self).ws)
                && old(self).parent == parent_model(m, old(self).ws) && old(self).list_facts(m)
                && x == list_search(m, old(self).mode, old(self).ws, old(self).parent, 0),
        ensures
            final(self).inv(),
            final(self).hist == old(self).hist,
            final(self).ws == old(self).ws,
            match p {
                Progress::Read(q) => q == final(self).pending && final(self).awaiting() && final(self).reads_left()
                    <= list_rest(old(self).mode) + 1551,
                Progress::Done(l) => !final(self).awaiting() && forall|m: Memory|
                    agrees(m, final(self).hist@) ==> layout_matches(l, m, final(self).ws),
            },
        decreases (if old(self).mode is ParentLink {
            2int
        } else if old(self).mode is Typed {
            1int
        } else {
            0int
        }), 1int,
    {
        match x {
            Some(found) => {
                self.children = Some(found);
                self.begin_descriptor()
            },
            None => {
                match self.mode {
                    ListCheck::ParentLink => {
                        self.mode = ListCheck::Typed;
                        self.next_list_mode()
                    },
                    ListCheck::Typed => {
                        self.mode = ListCheck::Loose;
                        self.next_list_mode()
                    },
                    ListCheck::Loose => {
                        self.children = None;
                        self.begin_descriptor()
                    },
                }
            },
        }
    }

    fn begin_descriptor(&mut self) -> (p: Progress<InstanceLayout>)
        requires
            forall|m: Memory| #[trigger] agrees(m, old(self).hist@) ==> old(self).name == name_model(m, old(self).ws)
                && old(self).parent == parent_model(m, old(self).ws)
                && old(self).children == children_choice(m, old(self).ws, old(self).parent),
        ensures
            final(self).inv(),
            final(self).hist == old(self).hist,
            final(self).ws == old(self).ws,
            match p {
                Progress::Read(q) => q == final(self).pending && final(self).awaiting() && final(self).reads_left()
                    <= 1551,
                Progress::Done(l) => !final(self).awaiting() && forall|m: Memory|
                    agrees(m, final(self).hist@) ==> layout_matches(l, m, final(self).ws),
            },
    {
        let (desc, q) = DescriptorScan::start(self.ws);
        self.desc = desc;
        self.phase = InstancePhase::Descriptor;
        self.pending = q;
        proof {
            self.prefix@ = self.hist@;
            assert(self.hist@ =~= self.prefix@ + self.desc.history());
        }
        Progress::Read(q)
    }

    fn begin_class(&mut self) -> (p: Progress<InstanceLayout>)
        requires
            forall|m: Memory| #[trigger] agrees(m, old(self).hist@) ==> old(self).name == name_model(m, old(self).ws)
                && old(self).parent == parent_model(m, old(self).ws)
                && old(self).children == children_choice(m, old(self).ws, old(self).parent)
                && old(self).descriptor == descriptor_of(m, old(self).ws),
        ensures
            final(self).inv(),
            final(self).hist == old(self).hist,
            final(self).ws == old(self).ws,
            match p {
                Progress::Read(q) => q == final(self).pending && final(self).awaiting() && final(self).reads_left()
                    <= 1166,
                Progress::Done(l) => !final(self).awaiting() && forall|m: Memory|
                    agrees(m, final(self).hist@) ==> layout_matches(l, m, final(self).ws),
            },
    {
        let (probe, q) = RttiProbe::start(self.ws);
        self.class_probe = probe;
        self.phase = InstancePhase::Class;
        self.pending = q;
        proof {
            self.prefix@ = self.hist@;
            assert(self.hist@ =~= self.prefix@ + self.class_probe.history());
        }
        Progress::Read(q)
    }

    fn finish(&mut self) -> (p: Progress<InstanceLayout>)
        requires
            forall|m: Memory| #[trigger] agrees(m, old(self).hist@) ==> old(self).name == name_model(m, old(self).ws)
                && old(self).parent == parent_model(m, old(self).ws)
                && old(self).children == children_choice(m, old(self).ws, old(self).parent)
                && old(self).descriptor == descriptor_of(m, old(self).ws)
                && old(self).class_name == class_name_model(m, old(self).ws),
        ensures
            final(self).inv(),
            final(self).hist == old(self).hist,
            final(self).ws == old(self).ws,
            p is Done,
            match p {
                Progress::Read(q) => q == final(self).pending && final(self).awaiting(),
                Progress::Done(l) => !final(self).awaiting() && forall|m: Memory|
                    agrees(m, final(self).hist@) ==> layout_matches(l, m, final(self).ws),
            },
    {
        self.phase = InstancePhase::Finished;
        Progress::Done(
            InstanceLayout {
                name: self.name,
                parent: self.parent,
                children: self.children,
                descriptor: self.descriptor,
                class_name: self.class_name,
            },
        )
    }

    /// Takes the answer to the pending read. When the probe is over the result
    /// is the layout every memory agreeing with the answers gives.
    #[verifier::rlimit(100)]
    pub fn resume(&mut self, data: Option<Vec<u8>>) -> (p: Progress<InstanceLayout>)
        requires
            old(self).inv(),
            old(self).awaiting(),
        ensures
            final(self).inv(),
            final(self).workspace() == old(self).workspace(),
            final(self).history() == old(self).history().push(answer_of(old(self).pending(), data)),
            match p {
                Progress::Read(q) => q == final(self).pending() && final(self).awaiting() && final(self).reads_left()
                    < old(self).reads_left(),
                Progress::Done(l) => !final(self).awaiting() && forall|m: Memory|
                    agrees(m, final(self).history()) ==> layout_matches(l, m, final(self).workspace()),
            },
    {
        let ghost h0 = self.hist@;
        let ghost ans = answer_of(self.pending, data);
        let ghost old_self = *self;
        proof {
            self.hist@ = self.hist@.push(ans);
        }
        assert forall|m: Memory| #[trigger] agrees(m, self.hist@) implies old_self.done_facts(m)
            && (old_self.phase is Lists ==> old_self.list_facts(m))
            && (old_self.phase is ClassName ==> rtti_model(m, self.ws) == Some(self.class@)) by {
            lemma_agrees_push(m, h0, ans);
        }
        match self.phase {
            InstancePhase::Name => {
                let r = self.name_scan.resume(data);
                proof {
                    assert(self.hist@ =~= self.prefix@ + self.name_scan.history());
                }
                match r {
                    Progress::Read(q) => {
                        self.pending = q;
                        return Progress::Read(q);
                    },
                    Progress::Done(x) => {
                        self.name = x;
                        assert forall|m: Memory| #[trigger] agrees(m, self.hist@) implies self.name == name_model(m, self.ws) by {
                            lemma_agrees_suffix(m, self.prefix@, self.name_scan.history());
                            assert(self.name_scan.result_model(m) == old_self.name_scan.result_model(m));
                            assert(old_self.name_scan.result_model(m) == name_model(m, self.ws));
                        }
                        return self.begin_parent();
                    },
                }
            },
            InstancePhase::Parent => {
                let r = self.find.resume(data);
                proof {
                    assert(self.hist@ =~= self.prefix@ + self.find.history());
                }
                match r {
                    Progress::Read(q) => {
                        self.pending = q;
                        return Progress::Read(q);
                    },
                    Progress::Done(x) => {
                        self.parent = match x {
                            Some(o) => o,
                            None => DEFAULT_PARENT_OFFSET,
                        };
                        assert forall|m: Memory| #[trigger] agrees(m, self.hist@) implies self.name == name_model(m, self.ws)
                            && self.parent == parent_model(m, self.ws) by {
                            lemma_agrees_suffix(m, self.prefix@, self.find.history());
                            assert(self.find.result_model(m) == old_self.find.result_model(m));
                            assert(old_self.find.result_model(m) == find_from(m, self.ws, "DataModel@RBX"@, 0x400, 8, 0));
                        }
                        return self.begin_lists();
                    },
                }
            },
            InstancePhase::Lists => {
                let r = self.lists.resume(data);
                proof {
                    assert(self.hist@ =~= self.prefix@ + self.lists.history());
                }
                match r {
                    Progress::Read(q) => {
                        self.pending = q;
                        return Progress::Read(q);
                    },
                    Progress::Done(x) => {
                        assert forall|m: Memory| #[trigger] agrees(m, self.hist@) implies self.name == name_model(m, self.ws)
                            && self.parent == parent_model(m, self.ws) && self.list_facts(m)
                            && x == list_search(m, self.mode, self.ws, self.parent, 0) by {
                            lemma_agrees_suffix(m, self.prefix@, self.lists.history());
                            assert(self.lists.result_model(m) == old_self.lists.result_model(m));
                            assert(old_self.lists.result_model(m) == list_search(m, self.mode, self.ws, self.parent, 0));
                        }
                        return self.list_finished(x);
                    },
                }
            },
            InstancePhase::Descriptor => {
                let r = self.desc.resume(data);
                proof {
                    assert(self.hist@ =~= self.prefix@ + self.desc.history());
                }
                match r {
                    Progress::Read(q) => {
                        self.pending = q;
                        return Progress::Read(q);
                    },
                    Progress::Done(x) => {
                        self.descriptor = x;
                        assert forall|m: Memory| #[trigger] agrees(m, self.hist@) implies self.name == name_model(m, self.ws)
                            && self.parent == parent_model(m, self.ws)
                            && self.children == children_choice(m, self.ws, self.parent)
                            && self.descriptor == descriptor_of(m, self.ws) by {
                            lemma_agrees_suffix(m, self.prefix@, self.desc.history());
                            assert(self.desc.result_model(m) == old_self.desc.result_model(m));
                            assert(old_self.desc.result_model(m) == descriptor_of(m, self.ws));
                        }
                        return self.begin_class();
                    },
                }
            },
            InstancePhase::Class => {
                let r = self.class_probe.resume(data);
                proof {
                    assert(self.hist@ =~= self.prefix@ + self.class_probe.history());
                }
                match r {
                    Progress::Read(q) => {
                        self.pending = q;
                        return Progress::Read(q);
                    },
                    Progress::Done(info) => {
                        assert forall|m: Memory| #[trigger] agrees(m, self.hist@) implies info_view(info) == rtti_model(m, self.ws) by {
                            lemma_agrees_suffix(m, self.prefix@, self.class_probe.history());
                        }
                        match info {
                            None => {
                                self.class_name = None;
                                self.finish()
                            },
                            Some(i) => {
                                let stem = class_stem(i.name.as_str());
                                let (scan, p) = NameSlotScan::start(self.ws, stem.as_str(), 0x80, true);
                                self.class_scan = scan;
                                self.phase = InstancePhase::ClassName;
                                proof {
                                    self.class@ = i.name@;
                                    self.prefix@ = self.hist@;
                                    assert(self.hist@ =~= self.prefix@ + self.class_scan.history());
                                }
                                match p {
                                    Progress::Read(q) => {
                                        self.pending = q;
                                        return Progress::Read(q);
                                    },
                                    Progress::Done(_) => {
                                        self.class_name = None;
                                        self.finish()
                                    },
                                }
                            },
                        }
                    },
                }
            },
            InstancePhase::ClassName => {
                let r = self.class_scan.resume(data);
                proof {
                    assert(self.hist@ =~= self.prefix@ + self.class_scan.history());
                }
                match r {
                    Progress::Read(q) => {
                        self.pending = q;
                        return Progress::Read(q);
                    },
                    Progress::Done(x) => {
                        self.class_name = x;
                        assert forall|m: Memory| #[trigger] agrees(m, self.hist@) implies self.name == name_model(m, self.ws)
                            && self.parent == parent_model(m, self.ws)
                            && self.children == children_choice(m, self.ws, self.parent)
                            && self.descriptor == descriptor_of(m, self.ws)
                            && self.class_name == class_name_model(m, self.ws) by {
                            lemma_agrees_suffix(m, self.prefix@, self.class_scan.history());
                            assert(self.class_scan.result_model(m) == old_self.class_scan.result_model(m));
                            assert(old_self.class_scan.result_model(m) == name_slot_search(m, self.ws, stem_of(self.class@), 0x80, true, 0));
                        }
                        self.finish()
                    },
                }
            },
            InstancePhase::Finished => {
                self.finish()
            },
        }
    }
}

/// The registry after recording a layout: the name slot, the child list's
/// two offsets, the class descriptor and the class-name slot when found, and
/// the parent slot when it is not the default.
pub open spec fn register_layout(v: DumperView, l: InstanceLayout) -> DumperView {
    let i = "Instance"@;
    let v1 = match l.name {
        Some(o) => spec_add_offset(v, i, "Name"@, o),
        None => v,
    };
    let v2 = match l.children {
        Some((cs, ce)) => spec_add_offset(spec_add_offset(v1, i, "ChildrenStart"@, cs), i, "ChildrenEnd"@, ce),
        None => v1,
    };
    let v3 = match l.descriptor {
        Some(o) => spec_add_offset(v2, i, "ClassDescriptor"@, o),
        None => v2,
    };
    let v4 = match l.class_name {
        Some(o) => spec_add_offset(v3, i, "ClassName"@, o),
        None => v3,
    };
    if l.parent != DEFAULT_PARENT_OFFSET {
        spec_add_offset(v4, i, "Parent"@, l.parent)
    } else {
        v4
    }
}

/// Records an instance layout in the registry (see `register_layout`).
pub fn register_instance(d: &mut Dumper, l: &InstanceLayout)
    requires
        old(d).wf(),
    ensures
        final(d).wf(),
        final(d)@ == register_layout(old(d)@, *l),
{
    if let Some(o) = l.name {
        d.add_offset("Instance", "Name", o);
    }
    if let Some((cs, ce)) = l.children {
        d.add_offset("Instance", "ChildrenStart", cs);
        d.add_offset("Instance", "ChildrenEnd", ce);
    }
    if let Some(o) = l.descriptor {
        d.add_offset("Instance", "ClassDescriptor", o);
    }
    if let Some(o) = l.class_name {
        d.add_offset("Instance", "ClassName", o);
    }
    if l.parent != DEFAULT_PARENT_OFFSET {
        d.add_offset("Instance", "Parent", l.parent);
    }
}

} // verus!
