//! What a panel can show besides a list: the text of a file, or a fixed
//! buffer of bytes read from one.
use vstd::prelude::*;
use vstd::string::StringExecFns;
use vstd::utf8::{valid_utf8, decode_utf8};

verus! {

/// How a widget is drawn.
pub struct WidgetState {
    pub boxed: bool,
}

impl Default for WidgetState {
    fn default() -> (s: Self)
        ensures
            !s.boxed,
    {
        WidgetState { boxed: false }
    }
}

/// The text of a file, with the path it came from.
pub struct ReadFileWidget {
    pub buffer: String,
    pub cwd: String,
}

impl ReadFileWidget {
    pub fn new(buffer: String, cwd: String) -> (w: Self)
        ensures
            w.buffer == buffer,
            w.cwd == cwd,
    {
        ReadFileWidget { buffer, cwd }
    }
}

/// The pieces `<[u8]>::utf8_chunks` cuts bytes into: each a run of valid
/// UTF-8, as characters, followed by the number of bytes of an invalid
/// sequence (zero for the last piece). A function of the bytes alone; named
/// here, not stated.
pub uninterp spec fn utf8_chunks_of(bytes: Seq<u8>) -> Seq<(Seq<char>, int)>;

/// `<[u8]>::utf8_chunks` on the first `n` bytes, each chunk given by its
/// valid text and the length of its invalid part. How bytes split into
/// chunks is named, not stated, but for the case its documentation settles:
/// the chunks stitch back into the input, an empty invalid part marks the
/// last chunk and a non-empty one an unexpected byte or a sequence cut
/// short, so bytes that are valid UTF-8 give at most one chunk, with all
/// their text and no invalid part, and at least one when there are bytes.
#[verifier::external_body]
fn utf8_chunks(bytes: &[u8], n: usize) -> (chunks: Vec<(String, usize)>)
    requires
        n <= bytes@.len(),
    ensures
        chunks@.len() == utf8_chunks_of(bytes@.take(n as int)).len(),
        forall|k: int|
            0 <= k < chunks@.len() ==> (#[trigger] chunks@[k]).0@ == utf8_chunks_of(bytes@.take(n as int))[k].0
                && chunks@[k].1 as int == utf8_chunks_of(bytes@.take(n as int))[k].1,
        valid_utf8(bytes@.take(n as int)) ==> {
            &&& chunks@.len() <= 1
            &&& n > 0 ==> chunks@.len() == 1
            &&& forall|k: int|
                0 <= k < chunks@.len() ==> (#[trigger] chunks@[k]).0@ == decode_utf8(bytes@.take(n as int))
                    && chunks@[k].1 == 0
        },
{
    bytes[..n].utf8_chunks().map(|c| (c.valid().to_string(), c.invalid().len())).collect()
}

/// `n` spaces.
pub open spec fn blanks(n: int) -> Seq<char> {
    Seq::new(n as nat, |i: int| ' ')
}

/// The text of the pieces: each valid run, then a space for each invalid
/// byte.
pub open spec fn chunks_text(chunks: Seq<(Seq<char>, int)>) -> Seq<char>
    decreases chunks.len(),
{
    if chunks.len() == 0 {
        Seq::empty()
    } else {
        chunks_text(chunks.drop_last()) + chunks.last().0 + blanks(chunks.last().1)
    }
}

/// Bytes read from a file.
pub struct Buffer {
    pub buf: [u8; 2000],
    /// How many bytes of `buf` count.
    pub read: usize,
}

impl Buffer {
    /// An empty buffer; the size asked for is not used.
    pub fn with_capacity(size: usize) -> (b: Buffer)
        ensures
            forall|i: int| 0 <= i < 2000 ==> b.buf@[i] == 0,
            b.read == 0,
    {
        let buf = [0u8; 2000];
        let read: usize = 0;
        Buffer { buf, read }
    }

    /// Records that `bytes` bytes were read into `buf`: all but the last
    /// seven count.
    pub fn set_read(&mut self, bytes: usize)
        requires
            bytes >= 7,
        ensures
            final(self).read == bytes - 7,
            final(self).buf == old(self).buf,
    {
        self.read = bytes - 7;
    }

    /// The text of the bytes that count, each invalid UTF-8 byte shown as a
    /// space; bytes that are valid UTF-8 give exactly their text.
    pub fn to_string(&self) -> (s: String)
        requires
            self.read <= 2000,
        ensures
            s@ == chunks_text(utf8_chunks_of(self.buf@.take(self.read as int))),
            valid_utf8(self.buf@.take(self.read as int)) ==> s@ == decode_utf8(self.buf@.take(self.read as int)),
    {
        let mut str = String::new();
        let chunks = utf8_chunks(self.buf.as_slice(), self.read);
        let ghost cs = utf8_chunks_of(self.buf@.take(self.read as int));
        proof {
            reveal_strlit(" ");
        }
        let mut k: usize = 0;
        assert(cs.take(0) =~= Seq::empty());
        while k < chunks.len()
            invariant
                k <= chunks@.len(),
                chunks@.len() == cs.len(),
                forall|j: int| 0 <= j < chunks@.len() ==> (#[trigger] chunks@[j]).0@ == cs[j].0 && chunks@[j].1 as int == cs[j].1,
                str@ == chunks_text(cs.take(k as int)),
                " "@ == seq![' '],
            decreases chunks@.len() - k,
        {
            str.append(chunks[k].0.as_str());
            let invalid = chunks[k].1;
            let mut j: usize = 0;
            while j < invalid
                invariant
                    j <= invalid,
                    str@ == chunks_text(cs.take(k as int)) + cs[k as int].0 + blanks(j as int),
                    " "@ == seq![' '],
                decreases invalid - j,
            {
                str.append(" ");
                assert(blanks(j as int) + seq![' '] =~= blanks(j + 1));
                j = j + 1;
            }
            assert(cs.take(k + 1).drop_last() =~= cs.take(k as int));
            k = k + 1;
        }
        assert(cs.take(chunks@.len() as int) =~= cs);
        proof {
            let b = self.buf@.take(self.read as int);
            if valid_utf8(b) {
                if cs.len() == 0 {
                    assert(b.len() == 0);
                    assert(b =~= Seq::<u8>::empty());
                    assert(decode_utf8(b) =~= Seq::<char>::empty());
                } else {
                    assert(chunks@[0].0@ == decode_utf8(b) && chunks@[0].1 == 0);
                    assert(cs.last().0 == decode_utf8(b) && cs.last().1 == 0);
                    assert(cs.drop_last() =~= Seq::<(Seq<char>, int)>::empty());
                    assert(chunks_text(cs.drop_last()) =~= Seq::<char>::empty());
                    assert(blanks(0) =~= Seq::<char>::empty());
                    assert(chunks_text(cs) =~= decode_utf8(b));
                }
            }
        }
        str
    }
}

} // verus!
