use vstd::prelude::*;
use crate::vector::IntoIter;

verus! {

/// The number that a run of bytes spells, the highest byte first.
pub open spec fn join(bytes: Seq<u8>) -> nat
    decreases bytes.len(),
{
    if bytes.len() == 0 {
        0
    } else {
        join(bytes.drop_last()) * 256 + bytes.last() as nat
    }
}

/// What joining `count` bytes of `pending` gives: the number that the
/// first `count` bytes spell, where `count` is 1, 2 or 3 and that many
/// bytes are left; nothing otherwise.
pub open spec fn joined(pending: Seq<u8>, count: usize) -> Option<usize> {
    if 1 <= count <= 3 && count <= pending.len() {
        Some(join(pending.take(count as int)) as usize)
    } else {
        None
    }
}

/// Number of bytes that a stream of `len` bytes has handed out after
/// joining `count` bytes, where it had handed out `consumed` before: a
/// count of 1, 2 or 3 uses up that many bytes, or all that are left where
/// they are fewer; any other count uses up none.
pub open spec fn consumed_after(len: nat, consumed: nat, count: usize) -> nat {
    if 1 <= count <= 3 {
        if consumed + count <= len {
            (consumed + count) as nat
        } else {
            len
        }
    } else {
        consumed
    }
}

/// One byte spells itself.
pub proof fn lemma_join_one(a: u8)
    ensures
        join(seq![a]) == a,
{
    reveal_with_fuel(join, 2);
    assert(seq![a].drop_last() =~= Seq::<u8>::empty());
}

/// Two bytes spell a number below 65,536.
pub proof fn lemma_join_two(a: u8, b: u8)
    ensures
        join(seq![a, b]) == a * 0x100 + b,
{
    assert(seq![a, b].drop_last() =~= seq![a]);
    lemma_join_one(a);
}

/// Three bytes spell a number below 16,777,216.
pub proof fn lemma_join_three(a: u8, b: u8, c: u8)
    ensures
        join(seq![a, b, c]) == a * 0x1_0000 + b * 0x100 + c,
{
    assert(seq![a, b, c].drop_last() =~= seq![a, b]);
    lemma_join_two(a, b);
}

/// Up to three bytes spell a number below 16,777,216.
pub proof fn lemma_join_bound(bytes: Seq<u8>)
    requires
        bytes.len() <= 3,
    ensures
        join(bytes) <= 0xFF_FFFF,
{
    if bytes.len() == 1 {
        assert(bytes =~= seq![bytes[0]]);
        lemma_join_one(bytes[0]);
    } else if bytes.len() == 2 {
        assert(bytes =~= seq![bytes[0], bytes[1]]);
        lemma_join_two(bytes[0], bytes[1]);
    } else if bytes.len() == 3 {
        assert(bytes =~= seq![bytes[0], bytes[1], bytes[2]]);
        lemma_join_three(bytes[0], bytes[1], bytes[2]);
    }
}

/// A stream of bytes from which operands can be read.
pub trait JoinBytes {
    /// Whether the stream is in a state that its own methods leave it in.
    spec fn stream_wf(&self) -> bool;

    /// All bytes of the stream, handed out or not.
    spec fn stream(&self) -> Seq<u8>;

    /// Number of bytes that the stream has handed out.
    spec fn consumed(&self) -> nat;

    /// A well-formed stream has handed out no more than it holds.
    proof fn lemma_consumed(&self)
        requires
            self.stream_wf(),
        ensures
            self.consumed() <= self.stream().len(),
    ;

    /// Reads `count` bytes and joins them, the highest first, into one
    /// number. Gives `None` where `count` is not 1, 2 or 3, and where
    /// fewer than `count` bytes are left, which uses up those bytes.
    fn join_bytes(&mut self, count: usize) -> (joined: Option<usize>)
        requires
            old(self).stream_wf(),
        ensures
            final(self).stream_wf(),
            final(self).stream() == old(self).stream(),
            joined == self::joined(old(self).stream().skip(old(self).consumed() as int), count),
            final(self).consumed() == consumed_after(
                old(self).stream().len(),
                old(self).consumed(),
                count,
            ),
    ;
}

/// What three reads in a row gave, for a stream that stood at `at`.
pub open spec fn reads_from(stream: Seq<u8>, at: nat, n: nat, items: Seq<Option<u8>>) -> bool {
    forall|i: int|
        0 <= i < n ==> #[trigger] items[i] == if at + i < stream.len() {
            Some(stream[at as int + i])
        } else {
            None
        }
}

/// Joins what up to three reads in a row gave.
pub fn join_read(count: usize, first: Option<u8>, second: Option<u8>, third: Option<u8>) -> (joined:
    Option<usize>)
    requires
        1 <= count <= 3,
    ensures
        forall|stream: Seq<u8>, at: nat|
            at <= stream.len() && reads_from(stream, at, count as nat, seq![first, second, third])
                ==> joined == #[trigger] self::joined(stream.skip(at as int), count),
{
    let joined = if count == 1 {
        match first {
            Some(a) => Some(a as usize),
            None => None,
        }
    } else if count == 2 {
        match (first, second) {
            (Some(a), Some(b)) => Some(a as usize * 0x100 + b as usize),
            _ => None,
        }
    } else {
        match (first, second, third) {
            (Some(a), Some(b), Some(c)) => Some(
                a as usize * 0x1_0000 + b as usize * 0x100 + c as usize,
            ),
            _ => None,
        }
    };
    proof {
        assert forall|stream: Seq<u8>, at: nat|
            at <= stream.len() && reads_from(
                stream,
                at,
                count as nat,
                seq![first, second, third],
            ) implies joined == #[trigger] self::joined(stream.skip(at as int), count) by {
            let items = seq![first, second, third];
            let rest = stream.skip(at as int);
            assert(items[0] == first);
            if count <= rest.len() {
                if count == 1 {
                    assert(rest.take(1) =~= seq![stream[at as int]]);
                    lemma_join_one(stream[at as int]);
                } else if count == 2 {
                    assert(items[1] == second);
                    assert(rest.take(2) =~= seq![stream[at as int], stream[at as int + 1]]);
                    lemma_join_two(stream[at as int], stream[at as int + 1]);
                } else {
                    assert(items[1] == second);
                    assert(items[2] == third);
                    assert(rest.take(3) =~= seq![
                        stream[at as int],
                        stream[at as int + 1],
                        stream[at as int + 2],
                    ]);
                    lemma_join_three(stream[at as int], stream[at as int + 1], stream[at as int + 2]);
                }
            } else {
                if count == 2 {
                    assert(items[1] == second);
                } else if count == 3 {
                    assert(items[1] == second);
                    assert(items[2] == third);
                }
            }
        }
    }
    joined
}

impl JoinBytes for IntoIter<u8> {
    open spec fn stream_wf(&self) -> bool {
        self.wf()
    }

    open spec fn stream(&self) -> Seq<u8> {
        self.source()
    }

    open spec fn consumed(&self) -> nat {
        self.taken()
    }

    proof fn lemma_consumed(&self) {
        self.lemma_wf();
    }

    fn join_bytes(&mut self, count: usize) -> (joined: Option<usize>) {
        proof {
            self.lemma_wf();
        }
        if 1 <= count && count <= 3 {
            let first = self.next();
            let second = if count >= 2 {
                self.next()
            } else {
                None
            };
            let third = if count >= 3 {
                self.next()
            } else {
                None
            };
            proof {
                assert(reads_from(
                    old(self).source(),
                    old(self).taken(),
                    count as nat,
                    seq![first, second, third],
                ));
            }
            join_read(count, first, second, third)
        } else {
            None
        }
    }
}

/// A reader over borrowed bytes that hands them out one by one, each
/// with its offset.
pub struct ByteCursor<'a> {
    bytes: &'a [u8],
    pos: usize,
}

impl<'a> ByteCursor<'a> {
    /// All bytes that the cursor reads over.
    pub closed spec fn bytes(&self) -> Seq<u8> {
        self.bytes@
    }

    /// Offset of the next byte to be read.
    pub closed spec fn position(&self) -> nat {
        self.pos as nat
    }

    /// Well-formedness: the position lies within the bytes.
    pub closed spec fn wf(&self) -> bool {
        self.pos <= self.bytes@.len()
    }

    /// The position of a well-formed cursor lies within its bytes.
    pub proof fn lemma_wf(&self)
        requires
            self.wf(),
        ensures
            self.position() <= self.bytes().len(),
    {
    }

    /// A cursor at the first of `bytes`.
    pub fn new(bytes: &'a [u8]) -> (cursor: Self)
        ensures
            cursor.wf(),
            cursor.bytes() == bytes@,
            cursor.position() == 0,
    {
        ByteCursor { bytes, pos: 0 }
    }

    /// The next byte with its offset, or `None` at the end.
    pub fn next(&mut self) -> (item: Option<(usize, u8)>)
        requires
            old(self).wf(),
        ensures
            final(self).wf(),
            final(self).bytes() == old(self).bytes(),
            old(self).position() < old(self).bytes().len() ==> item == Some(
                (old(self).position() as usize, old(self).bytes()[old(self).position() as int]),
            ) && final(self).position() == old(self).position() + 1,
            old(self).position() >= old(self).bytes().len() ==> item.is_none()
                && final(self).position() == old(self).position(),
    {
        if self.pos < self.bytes.len() {
            let offset = self.pos;
            self.pos = offset + 1;
            Some((offset, self.bytes[offset]))
        } else {
            None
        }
    }

    /// Number of bytes that were not read yet.
    pub fn len(&self) -> (n: usize)
        requires
            self.wf(),
        ensures
            n == self.bytes().len() - self.position(),
    {
        self.bytes.len() - self.pos
    }
}

/// The byte of an item that a stream handed out with its offset.
pub fn byte_of(item: Option<(usize, u8)>) -> (byte: Option<u8>)
    ensures
        byte == match item {
            Some((_, b)) => Some(b),
            None => None,
        },
{
    match item {
        Some((_, b)) => Some(b),
        None => None,
    }
}

impl<'a> JoinBytes for ByteCursor<'a> {
    open spec fn stream_wf(&self) -> bool {
        self.wf()
    }

    open spec fn stream(&self) -> Seq<u8> {
        self.bytes()
    }

    open spec fn consumed(&self) -> nat {
        self.position()
    }

    proof fn lemma_consumed(&self) {
        self.lemma_wf();
    }

    fn join_bytes(&mut self, count: usize) -> (joined: Option<usize>) {
        proof {
            self.lemma_wf();
        }
        if 1 <= count && count <= 3 {
            let first = byte_of(self.next());
            let second = if count >= 2 {
                byte_of(self.next())
            } else {
                None
            };
            let third = if count >= 3 {
                byte_of(self.next())
            } else {
                None
            };
            proof {
                assert(reads_from(
                    old(self).bytes(),
                    old(self).position(),
                    count as nat,
                    seq![first, second, third],
                ));
            }
            join_read(count, first, second, third)
        } else {
            None
        }
    }
}

} // verus!
