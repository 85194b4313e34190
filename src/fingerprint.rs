use std::collections::hash_map::DefaultHasher;
use std::hash::Hasher;
use vstd::prelude::*;
use vstd::std_specs::hash::DefaultHasherAdditionalSpecFns;

verus! {

/// Size of the blocks in which standard input is handed to the hasher.
pub const BLOCK: usize = 8192;

/// Splits `s` into consecutive blocks of `BLOCK` bytes; the last one may be shorter.
pub open spec fn blocks(s: Seq<u8>) -> Seq<Seq<u8>>
    decreases s.len(),
{
    if s.len() == 0 {
        Seq::empty()
    } else if s.len() <= BLOCK {
        seq![s]
    } else {
        seq![s.take(BLOCK as int)].add(blocks(s.skip(BLOCK as int)))
    }
}

/// `n` as eight bytes, least significant first.
pub open spec fn length_bytes(n: u64) -> Seq<u8> {
    seq![
        (n & 0xff) as u8,
        ((n >> 8u64) & 0xff) as u8,
        ((n >> 16u64) & 0xff) as u8,
        ((n >> 24u64) & 0xff) as u8,
        ((n >> 32u64) & 0xff) as u8,
        ((n >> 40u64) & 0xff) as u8,
        ((n >> 48u64) & 0xff) as u8,
        ((n >> 56u64) & 0xff) as u8,
    ]
}

/// The first writes of a fingerprint: the length of the command text, then the text.
/// The length keeps the end of the command text apart from the start of the input.
pub open spec fn header(command: Seq<u8>) -> Seq<Seq<u8>> {
    seq![length_bytes(command.len() as u64), command]
}

/// What the hasher is fed for a command text and an input: the header, then the
/// input in blocks.
pub open spec fn hasher_feed(command: Seq<u8>, input: Seq<u8>) -> Seq<Seq<u8>> {
    header(command).add(blocks(input))
}

/// The fingerprint of a command text and the full input.
pub open spec fn fingerprint(command: Seq<u8>, input: Seq<u8>) -> u64 {
    DefaultHasher::spec_finish(hasher_feed(command, input))
}


/// Feeding the input in pieces: when `done` ends on a block boundary, the blocks of
/// `done + rest` are those of `done` followed by those of `rest`.
pub proof fn lemma_blocks_append(done: Seq<u8>, rest: Seq<u8>)
    requires
        done.len() % (BLOCK as nat) == 0,
    ensures
        blocks(done + rest) == blocks(done) + blocks(rest),
    decreases done.len(),
{
    let b = BLOCK as int;
    if done.len() == 0 {
        assert(done + rest =~= rest);
        assert(blocks(done) =~= Seq::<Seq<u8>>::empty());
        assert(blocks(done) + blocks(rest) =~= blocks(rest));
    } else {
        let all = done + rest;
        if done.len() == b {
            assert(blocks(done) == seq![done]);
            if rest.len() == 0 {
                assert(all =~= done);
                assert(blocks(rest) =~= Seq::<Seq<u8>>::empty());
                assert(blocks(done) + blocks(rest) =~= blocks(done));
            } else {
                assert(all.take(b) =~= done);
                assert(all.skip(b) =~= rest);
            }
        } else {
            let tail = done.skip(b);
            assert(tail.len() % (BLOCK as nat) == 0);
            lemma_blocks_append(tail, rest);
            assert(all.take(b) =~= done.take(b));
            assert(all.skip(b) =~= tail + rest);
            assert(blocks(done) == seq![done.take(b)] + blocks(tail));
            assert(blocks(all) == seq![done.take(b)] + blocks(tail + rest));
            assert(blocks(all) =~= blocks(done) + blocks(rest));
        }
    }
}

/// The blocks of an input, put back together, are the input.
pub proof fn lemma_blocks_flatten(s: Seq<u8>)
    ensures
        blocks(s).flatten() == s,
    decreases s.len(),
{
    if s.len() == 0 {
        assert(blocks(s).flatten() =~= s);
    } else if s.len() <= BLOCK {
        let one = blocks(s);
        assert(one == seq![s]);
        assert(one.drop_first() =~= Seq::<Seq<u8>>::empty());
        assert(one.drop_first().flatten() =~= Seq::<u8>::empty());
        assert(one.flatten() =~= s);
    } else {
        let b = BLOCK as int;
        lemma_blocks_flatten(s.skip(b));
        let bs = blocks(s);
        assert(bs.first() == s.take(b));
        assert(bs.drop_first() =~= blocks(s.skip(b)));
        assert(s.take(b) + s.skip(b) =~= s);
    }
}

/// The fingerprint is a function of the command text and the whole input alone: two
/// runs with the same command text and the same input bytes get the same fingerprint,
/// whatever chunks the input arrived in.
pub proof fn lemma_fingerprint_deterministic(c1: Seq<u8>, s1: Seq<u8>, c2: Seq<u8>, s2: Seq<u8>)
    requires
        c1 == c2,
        s1 == s2,
    ensures
        fingerprint(c1, s1) == fingerprint(c2, s2),
{
}

/// Different lengths give different length bytes.
pub proof fn lemma_length_bytes_injective(a: u64, b: u64)
    requires
        length_bytes(a) == length_bytes(b),
    ensures
        a == b,
{
    let la = length_bytes(a);
    let lb = length_bytes(b);
    assert(la[0] == lb[0] && la[1] == lb[1] && la[2] == lb[2] && la[3] == lb[3]);
    assert(la[4] == lb[4] && la[5] == lb[5] && la[6] == lb[6] && la[7] == lb[7]);
    assert(((a & 0xff) as u8 == (b & 0xff) as u8 && ((a >> 8u64) & 0xff) as u8 == ((b >> 8u64)
        & 0xff) as u8 && ((a >> 16u64) & 0xff) as u8 == ((b >> 16u64) & 0xff) as u8 && ((a
        >> 24u64) & 0xff) as u8 == ((b >> 24u64) & 0xff) as u8 && ((a >> 32u64) & 0xff) as u8
        == ((b >> 32u64) & 0xff) as u8 && ((a >> 40u64) & 0xff) as u8 == ((b >> 40u64) & 0xff)
        as u8 && ((a >> 48u64) & 0xff) as u8 == ((b >> 48u64) & 0xff) as u8 && ((a >> 56u64)
        & 0xff) as u8 == ((b >> 56u64) & 0xff) as u8) ==> a == b) by (bit_vector);
}

/// The bytes the hasher is fed, joined end to end: the length bytes, the command
/// text, then the input.
pub proof fn lemma_hashed_bytes(command: Seq<u8>, input: Seq<u8>)
    ensures
        hasher_feed(command, input).flatten() == length_bytes(command.len() as u64) + command
            + input,
{
    let h = header(command);
    vstd::seq_lib::lemma_flatten_concat(h, blocks(input));
    lemma_blocks_flatten(input);
    assert(h.drop_first() =~= seq![command]);
    seq![command].lemma_flatten_one_element();
    assert(h.drop_first().flatten() =~= command);
    assert(h.flatten() =~= length_bytes(command.len() as u64) + command);
    assert(length_bytes(command.len() as u64) + command + input =~= h.flatten() + input);
}

/// The bytes hashed, joined end to end, determine the command text and the input:
/// runs that differ in either hash different byte strings, so their fingerprints
/// differ unless the 64-bit hash collides.
pub proof fn lemma_hashed_bytes_determine_run(c1: Seq<u8>, s1: Seq<u8>, c2: Seq<u8>, s2: Seq<u8>)
    requires
        c1.len() <= u64::MAX,
        c2.len() <= u64::MAX,
        hasher_feed(c1, s1).flatten() == hasher_feed(c2, s2).flatten(),
    ensures
        c1 == c2,
        s1 == s2,
{
    lemma_hashed_bytes(c1, s1);
    lemma_hashed_bytes(c2, s2);
    let j = hasher_feed(c1, s1).flatten();
    let l1 = length_bytes(c1.len() as u64);
    let l2 = length_bytes(c2.len() as u64);
    assert(j.take(8) =~= l1);
    assert(j.take(8) =~= l2);
    lemma_length_bytes_injective(c1.len() as u64, c2.len() as u64);
    let n = c1.len() as int;
    assert(j.subrange(8, 8 + n) =~= c1);
    assert(j.subrange(8, 8 + n) =~= c2);
    assert(j.skip(8 + n) =~= s1);
    assert(j.skip(8 + n) =~= s2);
}

/// The hasher that computes a fingerprint while the input streams past.
///
/// The header is written first: the length of the command text, then the text in
/// one piece. Input bytes gather in `pending` and reach the hasher in blocks of
/// `BLOCK` bytes, the rest at the end, so the fingerprint does not depend on how the
/// input was cut into chunks.
pub struct Fingerprinter {
    hasher: DefaultHasher,
    pending: Vec<u8>,
    command: Ghost<Seq<u8>>,
    done: Ghost<Seq<u8>>,
}

impl Fingerprinter {
    /// The command text that was hashed.
    pub closed spec fn command(&self) -> Seq<u8> {
        self.command@
    }

    /// Every input byte handed over so far, in order.
    pub closed spec fn input(&self) -> Seq<u8> {
        self.done@ + self.pending@
    }

    pub closed spec fn wf(&self) -> bool {
        &&& self.done@.len() % (BLOCK as nat) == 0
        &&& self.pending@.len() < BLOCK
        &&& self.hasher@ == header(self.command@) + blocks(self.done@)
    }

    /// Starts a fingerprint for the command text `command`, with no input yet.
    pub fn new(command: &[u8]) -> (r: Self)
        ensures
            r.wf(),
            r.command() == command@,
            r.input() == Seq::<u8>::empty(),
    {
        let n = command.len() as u64;
        let mut length: Vec<u8> = Vec::new();
        length.push((n & 0xff) as u8);
        length.push(((n >> 8u64) & 0xff) as u8);
        length.push(((n >> 16u64) & 0xff) as u8);
        length.push(((n >> 24u64) & 0xff) as u8);
        length.push(((n >> 32u64) & 0xff) as u8);
        length.push(((n >> 40u64) & 0xff) as u8);
        length.push(((n >> 48u64) & 0xff) as u8);
        length.push(((n >> 56u64) & 0xff) as u8);
        proof {
            assert(length@ =~= length_bytes(command@.len() as u64));
        }
        let mut hasher = DefaultHasher::new();
        hasher.write(length.as_slice());
        hasher.write(command);
        let r = Fingerprinter {
            hasher,
            pending: Vec::new(),
            command: Ghost(command@),
            done: Ghost(Seq::empty()),
        };
        proof {
            assert(blocks(Seq::<u8>::empty()) =~= Seq::<Seq<u8>>::empty());
            assert(r.hasher@ =~= header(command@) + blocks(r.done@));
            assert(r.input() =~= Seq::<u8>::empty());
        }
        r
    }

    /// Hands the next chunk of input to the hasher.
    pub fn update(&mut self, chunk: &[u8])
        requires
            old(self).wf(),
        ensures
            final(self).wf(),
            final(self).command() == old(self).command(),
            final(self).input() == old(self).input() + chunk@,
    {
        let ghost start = self.input();
        let mut i: usize = 0;
        while i < chunk.len()
            invariant
                self.wf(),
                self.command() == old(self).command(),
                start == old(self).input(),
                i <= chunk@.len(),
                self.input() == start + chunk@.take(i as int),
            decreases chunk@.len() - i,
        {
            let ghost before = self.input();
            self.pending.push(chunk[i]);
            if self.pending.len() == BLOCK {
                proof {
                    lemma_blocks_append(self.done@, self.pending@);
                    assert(blocks(self.pending@) == seq![self.pending@]);
                    assert(header(self.command@) + (blocks(self.done@) + seq![self.pending@])
                        =~= (header(self.command@) + blocks(self.done@)).push(self.pending@));
                }
                self.hasher.write(self.pending.as_slice());
                self.done = Ghost(self.done@ + self.pending@);
                self.pending = Vec::new();
                proof {
                    assert(self.input() =~= self.done@);
                }
            }
            i = i + 1;
            proof {
                assert(chunk@.take(i as int) =~= chunk@.take(i - 1) + seq![chunk@[i - 1]]);
                assert(self.input() =~= before + seq![chunk@[i - 1]]);
            }
        }
        proof {
            assert(chunk@.take(i as int) =~= chunk@);
        }
    }

    /// Finishes the fingerprint over the command text and all input handed over.
    pub fn finish(self) -> (r: u64)
        requires
            self.wf(),
        ensures
            r == fingerprint(self.command(), self.input()),
    {
        let mut hasher = self.hasher;
        if self.pending.len() > 0 {
            proof {
                lemma_blocks_append(self.done@, self.pending@);
                assert(blocks(self.pending@) == seq![self.pending@]);
                assert(header(self.command@) + (blocks(self.done@) + seq![self.pending@])
                    =~= (header(self.command@) + blocks(self.done@)).push(self.pending@));
            }
            hasher.write(self.pending.as_slice());
        } else {
            proof {
                assert(self.input() =~= self.done@);
            }
        }
        hasher.finish()
    }
}

} // verus!
