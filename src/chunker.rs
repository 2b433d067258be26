use vstd::prelude::*;
use crate::parts::{lemma_split_of_well_shaped, parts_well_shaped, split_parts};

verus! {

/// One numbered piece of the source, ready to be uploaded as a part.
pub struct Chunk {
    pub part_number: u64,
    pub bytes: Vec<u8>,
    pub is_final: bool,
}

/// What a chunker has seen and handed out so far.
pub struct ChunkerModel {
    pub part_size: nat,
    /// Bytes received but not yet handed out in a chunk.
    pub buffer: Seq<u8>,
    /// The source has reported its end.
    pub at_eof: bool,
    /// Every byte received from the source, in order.
    pub consumed: Seq<u8>,
    /// The bytes of each chunk handed out; chunk `i` has part number `i + 1`.
    pub emitted: Seq<Seq<u8>>,
}

impl ChunkerModel {
    /// The source is exhausted and nothing is left to hand out.
    pub open spec fn finished(self) -> bool {
        self.at_eof && self.buffer.len() == 0
    }

    /// A chunk can be handed out now: a full part is buffered, or the source
    /// has ended with some bytes left over.
    pub open spec fn chunk_ready(self) -> bool {
        self.buffer.len() >= self.part_size || (self.at_eof && self.buffer.len() > 0)
    }

    /// The part number the next chunk will carry.
    pub open spec fn next_part(self) -> nat {
        self.emitted.len() + 1
    }

    /// How many bytes the next chunk takes from the buffer.
    pub open spec fn next_len(self) -> nat {
        if self.buffer.len() < self.part_size {
            self.buffer.len()
        } else {
            self.part_size
        }
    }

    pub open spec fn wf(self) -> bool {
        &&& self.part_size > 0
        &&& self.next_part() <= u64::MAX
        &&& self.consumed == self.emitted.flatten() + self.buffer
        &&& parts_well_shaped(self.emitted, self.part_size)
        &&& self.emitted.len() > 0 && self.emitted.last().len() < self.part_size
            ==> self.finished()
    }

    /// Once the source is exhausted and everything handed out, the chunks are
    /// exactly the parts of the whole source.
    pub proof fn lemma_finished(self)
        requires
            self.wf(),
            self.finished(),
        ensures
            self.emitted == split_parts(self.consumed, self.part_size),
    {
        assert(self.consumed =~= self.emitted.flatten());
        lemma_split_of_well_shaped(self.emitted, self.part_size);
    }
}

/// Cuts a byte source, fed to it piece by piece, into numbered chunks of
/// `part_size` bytes; the last chunk may be shorter.
pub struct StreamChunker {
    part_size: usize,
    buffer: Vec<u8>,
    next_part: u64,
    at_eof: bool,
    consumed: Ghost<Seq<u8>>,
    emitted: Ghost<Seq<Seq<u8>>>,
}

impl View for StreamChunker {
    type V = ChunkerModel;

    closed spec fn view(&self) -> ChunkerModel {
        ChunkerModel {
            part_size: self.part_size as nat,
            buffer: self.buffer@,
            at_eof: self.at_eof,
            consumed: self.consumed@,
            emitted: self.emitted@,
        }
    }
}

impl StreamChunker {
    pub closed spec fn inv(&self) -> bool {
        &&& self@.wf()
        &&& self.next_part as nat == self@.next_part()
    }

    pub fn new(part_size: usize) -> (r: StreamChunker)
        requires
            part_size > 0,
        ensures
            r.inv(),
            r@.wf(),
            r@ == (ChunkerModel {
                part_size: part_size as nat,
                buffer: Seq::empty(),
                at_eof: false,
                consumed: Seq::empty(),
                emitted: Seq::empty(),
            }),
    {
        let r = StreamChunker {
            part_size,
            buffer: Vec::new(),
            next_part: 1,
            at_eof: false,
            consumed: Ghost(Seq::empty()),
            emitted: Ghost(Seq::empty()),
        };
        assert(r@.consumed =~= r@.emitted.flatten() + r@.buffer);
        r
    }

    /// The part number the next chunk will carry.
    pub fn next_part(&self) -> (r: u64)
        requires
            self.inv(),
        ensures
            r == self@.next_part(),
    {
        self.next_part
    }

    pub fn at_eof(&self) -> (r: bool)
        ensures
            r == self@.at_eof,
    {
        self.at_eof
    }

    pub fn is_finished(&self) -> (r: bool)
        ensures
            r == self@.finished(),
    {
        self.at_eof && self.buffer.len() == 0
    }

    pub fn chunk_ready(&self) -> (r: bool)
        ensures
            r == self@.chunk_ready(),
    {
        self.buffer.len() >= self.part_size || (self.at_eof && self.buffer.len() > 0)
    }

    /// How many more bytes complete the part being filled (0 when a full part
    /// is already buffered).
    pub fn wanted(&self) -> (r: usize)
        ensures
            r == if self@.buffer.len() < self@.part_size {
                self@.part_size - self@.buffer.len()
            } else {
                0
            },
    {
        if self.buffer.len() < self.part_size {
            self.part_size - self.buffer.len()
        } else {
            0
        }
    }

    /// Takes the next piece of the source; `eof` says that the source has ended
    /// after it.
    pub fn feed(&mut self, bytes: Vec<u8>, eof: bool)
        requires
            old(self).inv(),
            !old(self)@.at_eof,
        ensures
            final(self).inv(),
            final(self)@.wf(),
            final(self)@ == (ChunkerModel {
                buffer: old(self)@.buffer + bytes@,
                at_eof: eof,
                consumed: old(self)@.consumed + bytes@,
                ..old(self)@
            }),
    {
        let mut bytes = bytes;
        let ghost added = bytes@;
        self.buffer.append(&mut bytes);
        self.at_eof = eof;
        self.consumed = Ghost(self.consumed@ + added);
        assert(self@.consumed =~= self@.emitted.flatten() + self@.buffer);
    }

    /// Hands out the next chunk when one is ready.
    pub fn next_chunk(&mut self) -> (r: Option<Chunk>)
        requires
            old(self).inv(),
            old(self)@.next_part() < u64::MAX,
        ensures
            final(self).inv(),
            final(self)@.wf(),
            old(self)@.chunk_ready() <==> r is Some,
            r is None ==> final(self)@ == old(self)@,
            r matches Some(c) ==> {
                let n = old(self)@.next_len() as int;
                &&& c.part_number == old(self)@.next_part()
                &&& c.bytes@ == old(self)@.buffer.take(n)
                &&& c.is_final == final(self)@.finished()
                &&& final(self)@ == (ChunkerModel {
                    buffer: old(self)@.buffer.skip(n),
                    emitted: old(self)@.emitted.push(c.bytes@),
                    ..old(self)@
                })
            },
    {
        let ghost old_view = self@;
        let bytes = if self.buffer.len() >= self.part_size {
            let rest = self.buffer.split_off(self.part_size);
            let taken = self.buffer.split_off(0);
            self.buffer = rest;
            taken
        } else if self.at_eof && self.buffer.len() > 0 {
            self.buffer.split_off(0)
        } else {
            return None;
        };
        let part_number = self.next_part;
        self.next_part = self.next_part + 1;
        self.emitted = Ghost(self.emitted@.push(bytes@));
        proof {
            let n = old_view.next_len() as int;
            assert(bytes@ =~= old_view.buffer.take(n));
            assert(self@.buffer =~= old_view.buffer.skip(n));
            old_view.emitted.lemma_flatten_push(bytes@);
            assert(self@.consumed =~= self@.emitted.flatten() + self@.buffer);
            let e = self@.emitted;
            assert forall|i: int| 0 <= i < e.len() implies {
                &&& 0 < (#[trigger] e[i]).len() <= self@.part_size
                &&& i < e.len() - 1 ==> e[i].len() == self@.part_size
            } by {
                if i < e.len() - 1 {
                    assert(e[i] == old_view.emitted[i]);
                }
            }
        }
        Some(Chunk { part_number, bytes, is_final: self.at_eof && self.buffer.len() == 0 })
    }
}

} // verus!
