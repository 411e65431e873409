use vstd::prelude::*;
use vstd::utf8::encode_utf8;

use crate::memory::{
    agrees, answer_of, c_prefix, lemma_agrees_push, lossy_string, mem_read, mem_word, slice_prefix,
    string_from_buffer, string_of_buffer, utf8_lossy, word_of, zero_position, Answer, Memory, Progress,
    ReadRequest,
};
use crate::rtti::wadd;

verus! {

/// The text of the NUL-terminated string of at most `n` bytes at `a`, when the
/// `n` bytes can be read and the text is not empty.
pub open spec fn string_at(m: Memory, a: u64, n: nat) -> Option<Seq<char>> {
    match mem_read(m, a as int, n) {
        Some(buf) => string_of_buffer(buf),
        None => None,
    }
}

/// A name in the engine's string format: the first byte holds the length
/// shifted left by one, its low bit set when the text lives out of line. An
/// out-of-line text is found through the word at the same address with its low
/// bit cleared; an inline one starts at the next byte.
pub open spec fn name_fmt_model(m: Memory, addr: u64) -> Option<Seq<char>> {
    match mem_read(m, addr as int, 1) {
        Some(b) => {
            let len = (b[0] / 2) as nat;
            if len == 0 {
                None
            } else if b[0] % 2 == 1 {
                match mem_word(m, addr as int) {
                    Some(p) => string_at(m, (p - p % 2) as u64, len),
                    None => None,
                }
            } else {
                string_at(m, wadd(addr, 1), len)
            }
        },
        None => None,
    }
}

/// The short-string text kept inline: up to the first NUL of the 15 bytes
/// after the length byte (all `len` bytes when there is no NUL), accepted only
/// when its UTF-8 length is `len`.
pub open spec fn sso_inline(buf: Seq<u8>, len: nat) -> Option<Seq<char>> {
    let end = if c_prefix(buf).len() < buf.len() {
        c_prefix(buf).len()
    } else {
        len
    };
    let s = utf8_lossy(buf.subrange(0, end as int));
    if encode_utf8(s).len() == len {
        Some(s)
    } else {
        None
    }
}

/// A standard-library string object at `addr`: a first byte of at most 15 is
/// the length of text stored inline after it; otherwise the text pointer is the
/// word at `+8` and its length the word at `+16`, the pointer at least
/// `0x10000` and the length at most 256.
pub open spec fn sso_model(m: Memory, addr: u64) -> Option<Seq<char>> {
    match mem_read(m, addr as int, 1) {
        Some(b) => if b[0] <= 15 {
            match mem_read(m, wadd(addr, 1) as int, 15) {
                Some(buf) => sso_inline(buf, b[0] as nat),
                None => None,
            }
        } else {
            match mem_word(m, wadd(addr, 8) as int) {
                Some(p) => match mem_word(m, wadd(addr, 16) as int) {
                    Some(l) => if p < 0x10000 || l > 256 {
                        None
                    } else {
                        string_at(m, p, l as nat)
                    },
                    None => None,
                },
                None => None,
            }
        },
        None => None,
    }
}

pub open spec fn text_view(r: Option<String>) -> Option<Seq<char>> {
    match r {
        Some(s) => Some(s@),
        None => None,
    }
}

/// Reads the inline text of a short string from the 15 bytes after its length.
pub fn sso_inline_text(buf: &[u8], len: u8) -> (r: Option<String>)
    requires
        buf@.len() == 15,
        len <= 15,
    ensures
        text_view(r) == sso_inline(buf@, len as nat),
{
    let p = zero_position(buf);
    let end = if p < buf.len() {
        p
    } else {
        len as usize
    };
    let head = slice_prefix(buf, end);
    let s = lossy_string(head.as_slice());
    if s.as_str().as_bytes().len() == len as usize {
        Some(s)
    } else {
        None
    }
}

pub enum NameStage {
    Control,
    Pointer,
    Text,
    Finished,
}

/// Reads a name in the engine's string format one memory read at a time.
pub struct NameRead {
    addr: u64,
    len: usize,
    stage: NameStage,
    pending: ReadRequest,
    hist: Ghost<Seq<Answer>>,
}

impl NameRead {
    pub closed spec fn history(&self) -> Seq<Answer> {
        self.hist@
    }

    pub closed spec fn pending(&self) -> ReadRequest {
        self.pending
    }

    pub closed spec fn awaiting(&self) -> bool {
        !(self.stage is Finished)
    }

    pub closed spec fn address(&self) -> u64 {
        self.addr
    }

    pub closed spec fn inv(&self) -> bool {
        &&& self.stage is Control ==> self.pending == (ReadRequest { addr: self.addr, len: 1 })
        &&& self.stage is Pointer ==> self.pending == (ReadRequest { addr: self.addr, len: 8 }) && self.len > 0
        &&& self.stage is Text ==> self.pending.len == self.len
        &&& self.hist@.len() <= 3
        &&& self.stage is Control ==> self.hist@.len() == 0
        &&& self.stage is Pointer ==> self.hist@.len() == 1
        &&& self.stage is Text ==> self.hist@.len() <= 2
        &&& !(self.stage is Finished) ==> forall|m: Memory| #[trigger] agrees(m, self.hist@) ==> name_fmt_model(m, self.addr) == match self.stage {
            NameStage::Control => name_fmt_model(m, self.addr),
            NameStage::Pointer => match mem_word(m, self.addr as int) {
                Some(p) => string_at(m, (p - p % 2) as u64, self.len as nat),
                None => None,
            },
            _ => string_at(m, self.pending.addr, self.len as nat),
        }
    }

    pub fn start(addr: u64) -> (r: (NameRead, ReadRequest))
        ensures
            r.0.inv(),
            r.0.awaiting(),
            r.0.address() == addr,
            r.0.history() == Seq::<Answer>::empty(),
            r.1 == r.0.pending(),
    {
        let q = ReadRequest { addr, len: 1 };
        (NameRead { addr, len: 0, stage: NameStage::Control, pending: q, hist: Ghost(Seq::empty()) }, q)
    }

    pub fn resume(&mut self, data: Option<Vec<u8>>) -> (p: Progress<Option<String>>)
        requires
            old(self).inv(),
            old(self).awaiting(),
        ensures
            final(self).inv(),
            final(self).address() == old(self).address(),
            final(self).history() == old(self).history().push(answer_of(old(self).pending(), data)),
            match p {
                Progress::Read(q) => q == final(self).pending() && final(self).awaiting() && final(self).history().len() < 3,
                Progress::Done(r) => !final(self).awaiting() && forall|m: Memory|
                    agrees(m, final(self).history()) ==> text_view(r) == name_fmt_model(m, final(self).address()),
            },
    {
        let ghost h0 = self.hist@;
        let ghost ans = answer_of(self.pending, data);
        let ghost old_self = *self;
        proof {
            self.hist@ = self.hist@.push(ans);
        }
        let ghost h1 = self.hist@;
        assert forall|m: Memory| #[trigger] agrees(m, h1) implies agrees(m, h0) && mem_read(m, ans.0, ans.1) == ans.2 by {
            lemma_agrees_push(m, h0, ans);
        }
        match self.stage {
            NameStage::Control => {
                match data {
                    Some(b) => {
                        if b.len() != 1 {
                            self.stage = NameStage::Finished;
                            assert forall|m: Memory| agrees(m, self.hist@) implies None::<Seq<char>> == name_fmt_model(m, self.addr) by {
                                assert(mem_read(m, ans.0, ans.1) == ans.2);
                            }
                            return Progress::Done(None);
                        }
                        let ctrl = b[0];
                        let len = (ctrl / 2) as usize;
                        if len == 0 {
                            self.stage = NameStage::Finished;
                            return Progress::Done(None);
                        }
                        self.len = len;
                        if ctrl % 2 == 1 {
                            self.stage = NameStage::Pointer;
                            let q = ReadRequest { addr: self.addr, len: 8 };
                            self.pending = q;
                            return Progress::Read(q);
                        } else {
                            self.stage = NameStage::Text;
                            let q = ReadRequest { addr: self.addr.wrapping_add(1), len };
                            self.pending = q;
                            return Progress::Read(q);
                        }
                    },
                    None => {
                        self.stage = NameStage::Finished;
                        return Progress::Done(None);
                    },
                }
            },
            NameStage::Pointer => {
                let w = word_of(&data);
                assert forall|m: Memory| #[trigger] agrees(m, h1) implies w == mem_word(m, self.addr as int) by {}
                match w {
                    Some(p) => {
                        self.stage = NameStage::Text;
                        let q = ReadRequest { addr: p - p % 2, len: self.len };
                        self.pending = q;
                        return Progress::Read(q);
                    },
                    None => {
                        self.stage = NameStage::Finished;
                        return Progress::Done(None);
                    },
                }
            },
            NameStage::Text => {
                self.stage = NameStage::Finished;
                match data {
                    Some(buf) => {
                        if buf.len() != self.len {
                            assert forall|m: Memory| agrees(m, self.hist@) implies None::<Seq<char>> == name_fmt_model(m, self.addr) by {
                                assert(mem_read(m, ans.0, ans.1) == ans.2);
                            }
                            return Progress::Done(None);
                        }
                        let r = string_from_buffer(buf.as_slice());
                        return Progress::Done(r);
                    },
                    None => {
                        return Progress::Done(None);
                    },
                }
            },
            NameStage::Finished => {
                return Progress::Done(None);
            },
        }
    }
}

pub enum SsoStage {
    Size,
    Inline,
    Pointer,
    Length,
    Text,
    Finished,
}

/// Reads a standard-library string object one memory read at a time.
pub struct SsoRead {
    addr: u64,
    size: u8,
    ptr: u64,
    stage: SsoStage,
    pending: ReadRequest,
    hist: Ghost<Seq<Answer>>,
}

impl SsoRead {
    pub closed spec fn history(&self) -> Seq<Answer> {
        self.hist@
    }

    pub closed spec fn pending(&self) -> ReadRequest {
        self.pending
    }

    pub closed spec fn awaiting(&self) -> bool {
        !(self.stage is Finished)
    }

    pub closed spec fn address(&self) -> u64 {
        self.addr
    }

    pub closed spec fn inv(&self) -> bool {
        &&& self.stage is Size ==> self.pending == (ReadRequest { addr: self.addr, len: 1 }) && self.hist@.len() == 0
        &&& self.stage is Inline ==> self.pending == (ReadRequest { addr: wadd(self.addr, 1), len: 15 }) && self.size <= 15
        &&& self.stage is Pointer ==> self.pending == (ReadRequest { addr: wadd(self.addr, 8), len: 8 })
        &&& self.stage is Length ==> self.pending == (ReadRequest { addr: wadd(self.addr, 16), len: 8 })
        &&& self.stage is Text ==> self.pending.len <= 256 && self.hist@.len() == 3
        &&& self.hist@.len() <= 4
        &&& !(self.stage is Size) && !(self.stage is Finished) ==> self.hist@.len() >= 1
        &&& self.stage is Inline ==> self.hist@.len() == 1
        &&& self.stage is Pointer ==> self.hist@.len() == 1
        &&& self.stage is Length ==> self.hist@.len() == 2
        &&& !(self.stage is Finished) ==> forall|m: Memory| #[trigger] agrees(m, self.hist@) ==> sso_model(m, self.addr) == match self.stage {
            SsoStage::Size => sso_model(m, self.addr),
            SsoStage::Inline => match mem_read(m, wadd(self.addr, 1) as int, 15) {
                Some(buf) => sso_inline(buf, self.size as nat),
                None => None,
            },
            SsoStage::Pointer => match mem_word(m, wadd(self.addr, 8) as int) {
                Some(p) => match mem_word(m, wadd(self.addr, 16) as int) {
                    Some(l) => if p < 0x10000 || l > 256 {
                        None
                    } else {
                        string_at(m, p, l as nat)
                    },
                    None => None,
                },
                None => None,
            },
            SsoStage::Length => match mem_word(m, wadd(self.addr, 16) as int) {
                Some(l) => if self.ptr < 0x10000 || l > 256 {
                    None
                } else {
                    string_at(m, self.ptr, l as nat)
                },
                None => None,
            },
            _ => string_at(m, self.pending.addr, self.pending.len as nat),
        }
    }

    pub fn start(addr: u64) -> (r: (SsoRead, ReadRequest))
        ensures
            r.0.inv(),
            r.0.awaiting(),
            r.0.address() == addr,
            r.0.history() == Seq::<Answer>::empty(),
            r.1 == r.0.pending(),
    {
        let q = ReadRequest { addr, len: 1 };
        (SsoRead { addr, size: 0, ptr: 0, stage: SsoStage::Size, pending: q, hist: Ghost(Seq::empty()) }, q)
    }

    pub fn resume(&mut self, data: Option<Vec<u8>>) -> (p: Progress<Option<String>>)
        requires
            old(self).inv(),
            old(self).awaiting(),
        ensures
            final(self).inv(),
            final(self).address() == old(self).address(),
            final(self).history() == old(self).history().push(answer_of(old(self).pending(), data)),
            match p {
                Progress::Read(q) => q == final(self).pending() && final(self).awaiting() && final(self).history().len() < 4,
                Progress::Done(r) => !final(self).awaiting() && forall|m: Memory|
                    agrees(m, final(self).history()) ==> text_view(r) == sso_model(m, final(self).address()),
            },
    {
        let ghost h0 = self.hist@;
        let ghost ans = answer_of(self.pending, data);
        proof {
            self.hist@ = self.hist@.push(ans);
        }
        let ghost h1 = self.hist@;
        assert forall|m: Memory| #[trigger] agrees(m, h1) implies agrees(m, h0) && mem_read(m, ans.0, ans.1) == ans.2 by {
            lemma_agrees_push(m, h0, ans);
        }
        match self.stage {
            SsoStage::Size => {
                match data {
                    Some(b) => {
                        if b.len() != 1 {
                            self.stage = SsoStage::Finished;
                            assert forall|m: Memory| agrees(m, self.hist@) implies None::<Seq<char>> == sso_model(m, self.addr) by {
                                assert(mem_read(m, ans.0, ans.1) == ans.2);
                            }
                            return Progress::Done(None);
                        }
                        let size = b[0];
                        self.size = size;
                        if size <= 15 {
                            self.stage = SsoStage::Inline;
                            let q = ReadRequest { addr: self.addr.wrapping_add(1), len: 15 };
                            self.pending = q;
                            return Progress::Read(q);
                        } else {
                            self.stage = SsoStage::Pointer;
                            let q = ReadRequest { addr: self.addr.wrapping_add(8), len: 8 };
                            self.pending = q;
                            return Progress::Read(q);
                        }
                    },
                    None => {
                        self.stage = SsoStage::Finished;
                        return Progress::Done(None);
                    },
                }
            },
            SsoStage::Inline => {
                self.stage = SsoStage::Finished;
                match data {
                    Some(buf) => {
                        if buf.len() != 15 {
                            assert forall|m: Memory| agrees(m, self.hist@) implies None::<Seq<char>> == sso_model(m, self.addr) by {
                                assert(mem_read(m, ans.0, ans.1) == ans.2);
                            }
                            return Progress::Done(None);
                        }
                        let r = sso_inline_text(buf.as_slice(), self.size);
                        return Progress::Done(r);
                    },
                    None => {
                        return Progress::Done(None);
                    },
                }
            },
            SsoStage::Pointer => {
                let w = word_of(&data);
                assert forall|m: Memory| #[trigger] agrees(m, h1) implies w == mem_word(m, wadd(self.addr, 8) as int) by {}
                match w {
                    Some(p) => {
                        self.ptr = p;
                        self.stage = SsoStage::Length;
                        let q = ReadRequest { addr: self.addr.wrapping_add(16), len: 8 };
                        self.pending = q;
                        return Progress::Read(q);
                    },
                    None => {
                        self.stage = SsoStage::Finished;
                        return Progress::Done(None);
                    },
                }
            },
            SsoStage::Length => {
                let w = word_of(&data);
                assert forall|m: Memory| #[trigger] agrees(m, h1) implies w == mem_word(m, wadd(self.addr, 16) as int) by {}
                match w {
                    Some(l) => {
                        if self.ptr < 0x10000 || l > 256 {
                            self.stage = SsoStage::Finished;
                            return Progress::Done(None);
                        }
                        self.stage = SsoStage::Text;
                        let q = ReadRequest { addr: self.ptr, len: l as usize };
                        self.pending = q;
                        return Progress::Read(q);
                    },
                    None => {
                        self.stage = SsoStage::Finished;
                        return Progress::Done(None);
                    },
                }
            },
            SsoStage::Text => {
                self.stage = SsoStage::Finished;
                match data {
                    Some(buf) => {
                        if buf.len() != self.pending.len {
                            assert forall|m: Memory| agrees(m, self.hist@) implies None::<Seq<char>> == sso_model(m, self.addr) by {
                                assert(mem_read(m, ans.0, ans.1) == ans.2);
                            }
                            return Progress::Done(None);
                        }
                        let r = string_from_buffer(buf.as_slice());
                        return Progress::Done(r);
                    },
                    None => {
                        return Progress::Done(None);
                    },
                }
            },
            SsoStage::Finished => {
                return Progress::Done(None);
            },
        }
    }
}

} // verus!
