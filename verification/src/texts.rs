use vstd::prelude::*;
use vstd::utf8::encode_utf8;

use crate::classify::{
    asset_reference_shape, client_ticket_shape, is_asset_reference, is_client_ticket, is_job_id, is_object_name,
    is_server_address, is_short_text, is_sky_texture, is_sound_id, job_id_shape, object_name_shape, server_address_shape,
    sky_texture_shape, sound_id_shape,
};
use crate::memory::{
    agrees, answer_of, lemma_agrees_push, lemma_agrees_suffix, mem_read, mem_word, string_from_buffer, word_of,
    Answer, Memory, Progress, ReadRequest,
};
use crate::names::{name_fmt_model, sso_model, string_at, NameRead, SsoRead};
use crate::rtti::wadd;

verus! {

/// The shapes of text a slot search looks for.
#[derive(PartialEq, Eq, Structural, Clone, Copy)]
pub enum TextRule {
    JobId,
    ServerAddress,
    AssetReference,
    SoundId,
    ClientTicket,
    ObjectName,
    SkyTexture,
    /// Non-empty and shorter than this many bytes.
    ShortText(usize),
}

pub open spec fn rule_holds(rule: TextRule, s: Seq<char>) -> bool {
    match rule {
        TextRule::JobId => job_id_shape(encode_utf8(s)),
        TextRule::ServerAddress => server_address_shape(s),
        TextRule::AssetReference => asset_reference_shape(s),
        TextRule::SoundId => sound_id_shape(s),
        TextRule::ClientTicket => client_ticket_shape(s),
        TextRule::ObjectName => object_name_shape(s),
        TextRule::SkyTexture => sky_texture_shape(s),
        TextRule::ShortText(n) => 0 < encode_utf8(s).len() < n,
    }
}

/// Whether a text has the rule's shape.
pub fn text_rule_holds(rule: TextRule, s: &str) -> (r: bool)
    ensures
        r == rule_holds(rule, s@),
{
    match rule {
        TextRule::JobId => is_job_id(s),
        TextRule::ServerAddress => is_server_address(s),
        TextRule::AssetReference => is_asset_reference(s),
        TextRule::SoundId => is_sound_id(s),
        TextRule::ClientTicket => is_client_ticket(s),
        TextRule::ObjectName => is_object_name(s),
        TextRule::SkyTexture => is_sky_texture(s),
        TextRule::ShortText(n) => is_short_text(s, n),
    }
}

/// How the text behind a slot is read.
#[derive(PartialEq, Eq, Structural, Clone, Copy)]
pub enum TextReader {
    /// The NUL-terminated text of at most this many bytes the slot points to.
    CString(usize),
    /// The engine-format name the slot points to.
    EngineName,
    /// The engine-format name the slot points to, then the short-string object
    /// held in the slot itself.
    EngineNameOrInline,
}

/// The slot at `slot`, whose word is the pointer `p`, leads to text of the
/// rule's shape.
pub open spec fn slot_text_hit(m: Memory, slot: u64, p: u64, reader: TextReader, rule: TextRule) -> bool {
    match reader {
        TextReader::CString(n) => string_at(m, p, n as nat) matches Some(s) && rule_holds(rule, s),
        TextReader::EngineName => name_fmt_model(m, p) matches Some(s) && rule_holds(rule, s),
        TextReader::EngineNameOrInline => (name_fmt_model(m, p) matches Some(s) && rule_holds(rule, s)) || (sso_model(
            m,
            slot,
        ) matches Some(s) && rule_holds(rule, s)),
    }
}

/// The first 8-aligned offset from `off` below `limit`, not listed in `skip`,
/// whose slot in the object at `addr` holds a pointer of at least `0x10000`
/// that leads (as the reader says) to text of the rule's shape. Slots that
/// cannot be read or hold smaller words are passed over.
pub open spec fn text_slot_search(
    m: Memory,
    addr: u64,
    reader: TextReader,
    rule: TextRule,
    limit: usize,
    skip: Seq<usize>,
    off: int,
) -> Option<usize>
    decreases limit + 8 - off,
{
    if off < 0 || off >= limit {
        None
    } else if !skip.contains(off as usize) && (mem_word(m, wadd(addr, off as u64) as int) matches Some(p) && p >= 0x10000
        && slot_text_hit(m, wadd(addr, off as u64), p, reader, rule)) {
        Some(off as usize)
    } else {
        text_slot_search(m, addr, reader, rule, limit, skip, off + 8)
    }
}

pub enum TextStage {
    Word,
    Text,
    Name,
    Inline,
    Finished,
}

/// Searches an object's slots for text of a given shape (see
/// `text_slot_search`), one memory read at a time.
pub struct TextSlotScan {
    addr: u64,
    reader: TextReader,
    rule: TextRule,
    limit: usize,
    skip: Vec<usize>,
    off: usize,
    stage: TextStage,
    ptr: u64,
    name: NameRead,
    sso: SsoRead,
    pending: ReadRequest,
    prefix: Ghost<Seq<Answer>>,
    hist: Ghost<Seq<Answer>>,
}

impl TextSlotScan {
    pub closed spec fn history(&self) -> Seq<Answer> {
        self.hist@
    }

    pub closed spec fn pending(&self) -> ReadRequest {
        self.pending
    }

    pub closed spec fn awaiting(&self) -> bool {
        !(self.stage is Finished)
    }

    pub closed spec fn result_model(&self, m: Memory) -> Option<usize> {
        text_slot_search(m, self.addr, self.reader, self.rule, self.limit, self.skip@, 0)
    }

    closed spec fn slot(&self) -> u64 {
        wadd(self.addr, self.off as u64)
    }

    closed spec fn rest(&self, m: Memory) -> Option<usize> {
        text_slot_search(m, self.addr, self.reader, self.rule, self.limit, self.skip@, self.off as int)
    }

    closed spec fn next(&self, m: Memory) -> Option<usize> {
        text_slot_search(m, self.addr, self.reader, self.rule, self.limit, self.skip@, self.off + 8)
    }

    /// An upper bound on the reads the search still asks for: ten for each
    /// slot left, fewer within the current slot.
    pub closed spec fn reads_left(&self) -> nat {
        match self.stage {
            TextStage::Word => ((self.limit - self.off) * 10 + 9) as nat,
            TextStage::Text => ((self.limit - self.off) * 10 + 8) as nat,
            TextStage::Name => ((self.limit - self.off) * 10 + 7 - self.name.history().len()) as nat,
            TextStage::Inline => ((self.limit - self.off) * 10 + 4 - self.sso.history().len()) as nat,
            TextStage::Finished => 0,
        }
    }

    pub closed spec fn inv(&self) -> bool {
        &&& self.limit <= usize::MAX - 8
        &&& !(self.stage is Finished) ==> self.off < self.limit
        &&& self.stage is Word ==> {
            &&& !self.skip@.contains(self.off)
            &&& self.pending == (ReadRequest { addr: self.slot(), len: 8 })
            &&& forall|m: Memory| #[trigger] agrees(m, self.hist@) ==> self.result_model(m) == self.rest(m)
        }
        &&& (self.stage is Text || self.stage is Name || self.stage is Inline) ==> {
            &&& !self.skip@.contains(self.off)
            &&& self.ptr >= 0x10000
            &&& forall|m: Memory| #[trigger] agrees(m, self.prefix@) ==> mem_word(m, self.slot() as int) == Some(self.ptr)
                && self.result_model(m) == self.rest(m)
        }
        &&& self.stage is Text ==> {
            &&& self.reader matches TextReader::CString(n) && self.pending == (ReadRequest { addr: self.ptr, len: n })
            &&& self.hist@ == self.prefix@
        }
        &&& self.stage is Name ==> {
            &&& !(self.reader is CString)
            &&& self.name.inv()
            &&& self.name.awaiting()
            &&& self.name.history().len() < 3
            &&& self.name.address() == self.ptr
            &&& self.hist@ == self.prefix@ + self.name.history()
            &&& self.pending == self.name.pending()
        }
        &&& self.stage is Inline ==> {
            &&& self.reader is EngineNameOrInline
            &&& self.sso.inv()
            &&& self.sso.awaiting()
            &&& self.sso.history().len() < 4
            &&& self.sso.address() == self.slot()
            &&& self.hist@ == self.prefix@ + self.sso.history()
            &&& self.pending == self.sso.pending()
            &&& forall|m: Memory| #[trigger] agrees(m, self.prefix@) ==> !(name_fmt_model(m, self.ptr) matches Some(s)
                && rule_holds(self.rule, s))
        }
    }

    /// Starts searching the object at `addr`, in the slots below `limit` not
    /// listed in `skip`, for text of the rule's shape.
    pub fn start(addr: u64, reader: TextReader, rule: TextRule, limit: usize, skip: Vec<usize>) -> (r: (
        TextSlotScan,
        Progress<Option<usize>>,
    ))
        requires
            limit <= usize::MAX - 8,
        ensures
            r.0.inv(),
            r.0.history() == Seq::<Answer>::empty(),
            forall|m: Memory| #[trigger] r.0.result_model(m) == text_slot_search(m, addr, reader, rule, limit, skip@, 0),
            r.0.reads_left() <= limit * 10 + 9,
            match r.1 {
                Progress::Read(q) => q == r.0.pending() && r.0.awaiting(),
                Progress::Done(x) => !r.0.awaiting() && forall|m: Memory| x == #[trigger] r.0.result_model(m),
            },
    {
        let (name, _q1) = NameRead::start(0);
        let (sso, _q2) = SsoRead::start(0);
        let mut s = TextSlotScan {
            addr,
            reader,
            rule,
            limit,
            skip,
            off: 0,
            stage: TextStage::Word,
            ptr: 0,
            name,
            sso,
            pending: ReadRequest { addr: 0, len: 8 },
            prefix: Ghost(Seq::empty()),
            hist: Ghost(Seq::empty()),
        };
        let p = s.enter_slot();
        (s, p)
    }

    fn listed(&self, off: usize) -> (b: bool)
        ensures
            b == self.skip@.contains(off),
    {
        let mut k: usize = 0;
        while k < self.skip.len()
            invariant
                k <= self.skip@.len(),
                forall|j: int| 0 <= j < k ==> self.skip@[j] != off,
            decreases self.skip@.len() - k,
        {
            if self.skip[k] == off {
                return true;
            }
            k = k + 1;
        }
        false
    }

    /// Moves past listed slots from `off` and asks for the next slot's word.
    fn enter_slot(&mut self) -> (p: Progress<Option<usize>>)
        requires
            old(self).limit <= usize::MAX - 8,
            forall|m: Memory| #[trigger] agrees(m, old(self).hist@) ==> old(self).result_model(m) == old(self).rest(m),
        ensures
            final(self).inv(),
            final(self).hist == old(self).hist,
            final(self).addr == old(self).addr,
            final(self).reader == old(self).reader,
            final(self).rule == old(self).rule,
            final(self).limit == old(self).limit,
            final(self).skip == old(self).skip,
            match p {
                Progress::Read(q) => q == final(self).pending && final(self).awaiting() && final(self).off >= old(self).off
                    && final(self).reads_left() == (final(self).limit - final(self).off) * 10 + 9,
                Progress::Done(x) => !final(self).awaiting() && forall|m: Memory|
                    agrees(m, final(self).hist@) ==> x == #[trigger] final(self).result_model(m),
            },
        decreases old(self).limit + 8 - old(self).off,
    {
        if self.off >= self.limit {
            self.stage = TextStage::Finished;
            return Progress::Done(None);
        }
        if self.listed(self.off) {
            self.off = self.off + 8;
            return self.enter_slot();
        }
        self.stage = TextStage::Word;
        let q = ReadRequest { addr: self.addr.wrapping_add(self.off as u64), len: 8 };
        self.pending = q;
        Progress::Read(q)
    }

    /// The slot at `off` holds no matching text: go on with the next slot.
    fn next_slot(&mut self) -> (p: Progress<Option<usize>>)
        requires
            old(self).limit <= usize::MAX - 8,
            old(self).off < old(self).limit,
            forall|m: Memory| #[trigger] agrees(m, old(self).hist@) ==> old(self).result_model(m) == old(self).next(m),
        ensures
            final(self).inv(),
            final(self).hist == old(self).hist,
            final(self).addr == old(self).addr,
            final(self).reader == old(self).reader,
            final(self).rule == old(self).rule,
            final(self).limit == old(self).limit,
            final(self).skip == old(self).skip,
            match p {
                Progress::Read(q) => q == final(self).pending && final(self).awaiting() && final(self).reads_left() <= (
                old(self).limit - old(self).off - 8) * 10 + 9,
                Progress::Done(x) => !final(self).awaiting() && forall|m: Memory|
                    agrees(m, final(self).hist@) ==> x == #[trigger] final(self).result_model(m),
            },
    {
        self.off = self.off + 8;
        self.enter_slot()
    }

    /// Reads the inline short string of the current slot.
    fn enter_inline(&mut self) -> (p: Progress<Option<usize>>)
        requires
            old(self).reader is EngineNameOrInline,
            old(self).limit <= usize::MAX - 8,
            old(self).off < old(self).limit,
            !old(self).skip@.contains(old(self).off),
            old(self).ptr >= 0x10000,
            forall|m: Memory| #[trigger] agrees(m, old(self).hist@) ==> mem_word(m, old(self).slot() as int) == Some(old(self).ptr)
                && old(self).result_model(m) == old(self).rest(m)
                && !(name_fmt_model(m, old(self).ptr) matches Some(s) && rule_holds(old(self).rule, s)),
        ensures
            final(self).inv(),
            final(self).hist == old(self).hist,
            final(self).addr == old(self).addr,
            final(self).reader == old(self).reader,
            final(self).rule == old(self).rule,
            final(self).limit == old(self).limit,
            final(self).skip == old(self).skip,
            match p {
                Progress::Read(q) => q == final(self).pending && final(self).awaiting() && final(self).reads_left() == (
                old(self).limit - old(self).off) * 10 + 4,
                Progress::Done(x) => !final(self).awaiting() && forall|m: Memory|
                    agrees(m, final(self).hist@) ==> x == #[trigger] final(self).result_model(m),
            },
    {
        let (sso, q) = SsoRead::start(self.addr.wrapping_add(self.off as u64));
        self.sso = sso;
        self.stage = TextStage::Inline;
        self.pending = q;
        proof {
            self.prefix@ = self.hist@;
            assert(self.hist@ =~= self.prefix@ + self.sso.history());
        }
        Progress::Read(q)
    }

    /// Takes the answer to the pending read. When the search is over the result
    /// is the offset every memory agreeing with the answers gives.
    #[verifier::rlimit(60)]
    pub fn resume(&mut self, data: Option<Vec<u8>>) -> (p: Progress<Option<usize>>)
        requires
            old(self).inv(),
            old(self).awaiting(),
        ensures
            final(self).inv(),
            forall|m: Memory| #[trigger] final(self).result_model(m) == old(self).result_model(m),
            final(self).history() == old(self).history().push(answer_of(old(self).pending(), data)),
            match p {
                Progress::Read(q) => q == final(self).pending() && final(self).awaiting() && final(self).reads_left()
                    < old(self).reads_left(),
                Progress::Done(r) => !final(self).awaiting() && forall|m: Memory|
                    agrees(m, final(self).history()) ==> r == #[trigger] final(self).result_model(m),
            },
    {
        let ghost h0 = self.hist@;
        let ghost q0 = self.pending;
        let ghost ans = answer_of(self.pending, data);
        proof {
            self.hist@ = self.hist@.push(ans);
        }
        let ghost h1 = self.hist@;
        match self.stage {
            TextStage::Word => {
                let w = word_of(&data);
                assert forall|m: Memory| #[trigger] agrees(m, h1) implies w == mem_word(m, q0.addr as int)
                    && self.result_model(m) == self.rest(m) by {
                    lemma_agrees_push(m, h0, ans);
                }
                match w {
                    Some(p) => {
                        if p >= 0x10000 {
                            self.ptr = p;
                            match self.reader {
                                TextReader::CString(n) => {
                                    self.stage = TextStage::Text;
                                    let q = ReadRequest { addr: p, len: n };
                                    self.pending = q;
                                    proof {
                                        self.prefix@ = h1;
                                    }
                                    return Progress::Read(q);
                                },
                                _ => {
                                    let (name, q) = NameRead::start(p);
                                    self.name = name;
                                    self.stage = TextStage::Name;
                                    self.pending = q;
                                    proof {
                                        self.prefix@ = h1;
                                        assert(self.hist@ =~= self.prefix@ + self.name.history());
                                    }
                                    return Progress::Read(q);
                                },
                            }
                        }
                    },
                    None => {},
                }
                return self.next_slot();
            },
            TextStage::Text => {
                let want = self.pending.len;
                let hit = match data {
                    Some(buf) => {
                        if buf.len() == want {
                            match string_from_buffer(buf.as_slice()) {
                                Some(s) => text_rule_holds(self.rule, s.as_str()),
                                None => false,
                            }
                        } else {
                            false
                        }
                    },
                    None => false,
                };
                assert forall|m: Memory| #[trigger] agrees(m, self.hist@) implies hit == slot_text_hit(m, self.slot(), self.ptr, self.reader, self.rule)
                    && mem_word(m, self.slot() as int) == Some(self.ptr) && self.result_model(m) == self.rest(m) by {
                    lemma_agrees_push(m, h0, ans);
                }
                if hit {
                    self.stage = TextStage::Finished;
                    return Progress::Done(Some(self.off));
                }
                return self.next_slot();
            },
            TextStage::Name => {
                let r = self.name.resume(data);
                proof {
                    assert(self.hist@ =~= self.prefix@ + self.name.history());
                }
                match r {
                    Progress::Read(q) => {
                        self.pending = q;
                        return Progress::Read(q);
                    },
                    Progress::Done(text) => {
                        let hit = match &text {
                            Some(s) => text_rule_holds(self.rule, s.as_str()),
                            None => false,
                        };
                        assert forall|m: Memory| #[trigger] agrees(m, self.hist@) implies hit == (name_fmt_model(m, self.ptr) matches Some(s)
                            && rule_holds(self.rule, s)) && mem_word(m, self.slot() as int) == Some(self.ptr)
                            && self.result_model(m) == self.rest(m) by {
                            lemma_agrees_suffix(m, self.prefix@, self.name.history());
                        }
                        if hit {
                            self.stage = TextStage::Finished;
                            return Progress::Done(Some(self.off));
                        }
                        if self.reader == TextReader::EngineNameOrInline {
                            return self.enter_inline();
                        }
                        return self.next_slot();
                    },
                }
            },
            TextStage::Inline => {
                let r = self.sso.resume(data);
                proof {
                    assert(self.hist@ =~= self.prefix@ + self.sso.history());
                }
                match r {
                    Progress::Read(q) => {
                        self.pending = q;
                        return Progress::Read(q);
                    },
                    Progress::Done(text) => {
                        let hit = match &text {
                            Some(s) => text_rule_holds(self.rule, s.as_str()),
                            None => false,
                        };
                        assert forall|m: Memory| #[trigger] agrees(m, self.hist@) implies hit == (sso_model(m, self.slot()) matches Some(s)
                            && rule_holds(self.rule, s)) && mem_word(m, self.slot() as int) == Some(self.ptr)
                            && self.result_model(m) == self.rest(m)
                            && !(name_fmt_model(m, self.ptr) matches Some(s) && rule_holds(self.rule, s)) by {
                            lemma_agrees_suffix(m, self.prefix@, self.sso.history());
                        }
                        if hit {
                            self.stage = TextStage::Finished;
                            return Progress::Done(Some(self.off));
                        }
                        return self.next_slot();
                    },
                }
            },
            TextStage::Finished => {
                return Progress::Done(None);
            },
        }
    }
}

} // verus!
