//! Splitting the bytes that arrive through a pipe into lines.

use vstd::prelude::*;

verus! {

/// What `String::from_utf8` makes of some bytes: their text if they are valid UTF-8.
pub uninterp spec fn utf8_text(bytes: Seq<u8>) -> Option<Seq<char>>;

/// Wraps `String::from_utf8`, which std documents as returning the text of the bytes if they are
/// valid UTF-8 and an error otherwise. The contract names that result, and states only that bytes
/// which are all ASCII decode to the same characters.
#[verifier::external_body]
fn decode_utf8(bytes: Vec<u8>) -> (res: Option<String>)
    ensures
        match res {
            Some(text) => utf8_text(bytes@) == Some(text@),
            None => utf8_text(bytes@) is None,
        },
        (forall|i: int| 0 <= i < bytes@.len() ==> bytes@[i] < 128) ==> res is Some,
        (forall|i: int| 0 <= i < bytes@.len() ==> bytes@[i] < 128) ==> res.unwrap()@ == bytes@.map_values(|b: u8| b as char),
{
    String::from_utf8(bytes).ok()
}

/// The line feed, which ends each line.
pub const NEWLINE: u8 = 0x0a;

/// The complete lines in some bytes, without their line feeds, and the bytes after the last one.
pub open spec fn split_lines(s: Seq<u8>) -> (Seq<Seq<u8>>, Seq<u8>)
    decreases s.len(),
{
    if s.len() == 0 {
        (Seq::empty(), Seq::empty())
    } else {
        let (lines, rest) = split_lines(s.drop_last());
        if s.last() == NEWLINE {
            (lines.push(rest), Seq::empty())
        } else {
            (lines, rest.push(s.last()))
        }
    }
}

/// The texts of those lines that are valid UTF-8, in order.
pub open spec fn valid_texts(lines: Seq<Seq<u8>>) -> Seq<Seq<char>>
    decreases lines.len(),
{
    if lines.len() == 0 {
        Seq::empty()
    } else {
        match utf8_text(lines.last()) {
            Some(text) => valid_texts(lines.drop_last()).push(text),
            None => valid_texts(lines.drop_last()),
        }
    }
}

/// The index of the first occurrence of a byte, if any.
pub fn linear_search(data: &[u8], needle: u8) -> (res: Option<usize>)
    ensures
        match res {
            Some(i) => i < data@.len() && data@[i as int] == needle && forall|j: int| 0 <= j < i ==> data@[j] != needle,
            None => forall|j: int| 0 <= j < data@.len() ==> data@[j] != needle,
        },
{
    let mut i: usize = 0;
    while i < data.len()
        invariant
            i <= data@.len(),
            forall|j: int| 0 <= j < i ==> data@[j] != needle,
        decreases data@.len() - i,
    {
        if data[i] == needle {
            return Some(i);
        }
        i += 1;
    }
    None
}

/// Collects bytes until they form complete lines.
pub struct LineReader {
    /// Bytes that were received but do not end in a line feed yet.
    cached_data: Vec<u8>,
}

impl LineReader {
    pub closed spec fn buffered(&self) -> Seq<u8> {
        self.cached_data@
    }

    /// A reader that has no bytes yet.
    pub fn new() -> (res: LineReader)
        ensures
            res.buffered() == Seq::<u8>::empty(),
    {
        LineReader { cached_data: Vec::new() }
    }

    /// Takes the bytes of one read and returns the lines that they complete, as text. A line that is
    /// not valid UTF-8 is left out. The bytes after the last line feed are kept for the next read.
    pub fn read_lines(&mut self, data: &[u8]) -> (res: Vec<String>)
        requires
            old(self).buffered().len() + data@.len() <= usize::MAX,
        ensures
            res@.map_values(|t: String| t@) == valid_texts(split_lines(old(self).buffered() + data@).0),
            final(self).buffered() == split_lines(old(self).buffered() + data@).1,
    {
        let ghost all = self.cached_data@ + data@;
        let ghost old_len = self.cached_data@.len();
        let mut lines: Vec<String> = Vec::new();
        let mut current: Vec<u8> = Vec::new();
        let total = self.cached_data.len() + data.len();
        let mut i: usize = 0;
        proof {
            assert(all.take(0) == Seq::<u8>::empty());
            assert(lines@.map_values(|t: String| t@) == Seq::<Seq<char>>::empty());
        }
        while i < total
            invariant
                i <= total,
                total == all.len(),
                old_len == self.cached_data@.len(),
                all == self.cached_data@ + data@,
                current@ == split_lines(all.take(i as int)).1,
                lines@.map_values(|t: String| t@) == valid_texts(split_lines(all.take(i as int)).0),
            decreases total - i,
        {
            let byte = if i < self.cached_data.len() {
                self.cached_data[i]
            } else {
                data[i - self.cached_data.len()]
            };
            proof {
                assert(byte == all[i as int]);
                assert(all.take(i + 1).drop_last() == all.take(i as int));
                assert(all.take(i + 1).last() == all[i as int]);
            }
            if byte == NEWLINE {
                let line = current;
                current = Vec::new();
                let ghost before = lines@;
                let ghost split = split_lines(all.take(i as int));
                proof {
                    assert(split_lines(all.take(i + 1)) == (split.0.push(line@), Seq::<u8>::empty()));
                    assert(split.0.push(line@).drop_last() == split.0);
                    assert(split.0.push(line@).last() == line@);
                }
                match decode_utf8(line) {
                    Some(text) => {
                        lines.push(text);
                        proof {
                            assert(lines@.map_values(|t: String| t@) == before.map_values(|t: String| t@).push(text@));
                        }
                    },
                    None => {},
                }
            } else {
                current.push(byte);
            }
            i += 1;
        }
        proof {
            assert(all.take(total as int) == all);
        }
        self.cached_data = current;
        lines
    }

    /// The bytes that were received but do not end in a line feed yet.
    pub fn get_buffered_data(&self) -> (res: &Vec<u8>)
        ensures
            res@ == self.buffered(),
    {
        &self.cached_data
    }
}

/// Splitting two pieces of data one after the other gives the lines that splitting them at once
/// gives: the second piece continues the line that the first one left unfinished.
pub proof fn lemma_split_lines_in_pieces(a: Seq<u8>, b: Seq<u8>)
    ensures
        split_lines(a + b).0 == split_lines(a).0 + split_lines(split_lines(a).1 + b).0,
        split_lines(a + b).1 == split_lines(split_lines(a).1 + b).1,
    decreases b.len(),
{
    let rest = split_lines(a).1;
    if b.len() == 0 {
        assert(a + b == a);
        assert(rest + b == rest);
        lemma_split_lines_of_rest(a);
    } else {
        let b0 = b.drop_last();
        lemma_split_lines_in_pieces(a, b0);
        assert((a + b).drop_last() == a + b0);
        assert((a + b).last() == b.last());
        assert((rest + b).drop_last() == rest + b0);
        assert((rest + b).last() == b.last());
    }
}

/// What is left after the last line feed holds no line feed, and splits into no lines.
proof fn lemma_split_lines_of_rest(a: Seq<u8>)
    ensures
        split_lines(split_lines(a).1).0 == Seq::<Seq<u8>>::empty(),
        split_lines(split_lines(a).1).1 == split_lines(a).1,
    decreases a.len(),
{
    if a.len() > 0 {
        lemma_split_lines_of_rest(a.drop_last());
        let rest0 = split_lines(a.drop_last()).1;
        if a.last() != NEWLINE {
            let r = rest0.push(a.last());
            assert(r.drop_last() == rest0);
        }
    }
}

} // verus!
