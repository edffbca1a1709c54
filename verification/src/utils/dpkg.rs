//! Interpretation of what the dpkg and apt tools print.
use vstd::prelude::*;
use vstd::utf8::{decode_utf8, valid_utf8};

use crate::text::{chars_of, string_of, trim, trim_chars};
use std::cmp::Ordering;

verus! {

// ---------------------------------------------------------------------------
// Splitting tool output into lines
// ---------------------------------------------------------------------------

/// A line ending byte: `\n` or `\r` (progress updates end in `\r`).
pub open spec fn is_line_end(b: u8) -> bool {
    b == 10u8 || b == 13u8
}

/// Left-to-right state of splitting bytes at line endings: the finished
/// pieces and the piece being read.
pub open spec fn split_ends(s: Seq<u8>) -> (Seq<Seq<u8>>, Seq<u8>)
    decreases s.len(),
{
    if s.len() == 0 {
        (Seq::empty(), Seq::empty())
    } else {
        let (done, cur) = split_ends(s.drop_last());
        if is_line_end(s.last()) {
            (done.push(cur), Seq::empty())
        } else {
            (done, cur.push(s.last()))
        }
    }
}

/// The sequence without its empty members.
pub open spec fn nonempty(s: Seq<Seq<u8>>) -> Seq<Seq<u8>>
    decreases s.len(),
{
    if s.len() == 0 {
        s
    } else if s.last().len() == 0 {
        nonempty(s.drop_last())
    } else {
        nonempty(s.drop_last()).push(s.last())
    }
}

/// The lines of tool output: the non-empty runs of bytes between line
/// endings, in order.
pub open spec fn output_lines(s: Seq<u8>) -> Seq<Seq<u8>> {
    nonempty(split_ends(s).0.push(split_ends(s).1))
}

/// Splits a byte stream into lines as it arrives, one byte at a time.
pub struct LineSplitter {
    buf: Vec<u8>,
}

impl View for LineSplitter {
    type V = Seq<u8>;

    /// The bytes of the line being read.
    closed spec fn view(&self) -> Seq<u8> {
        self.buf@
    }
}

/// The pending bytes after one more byte, and the line it completes.
pub open spec fn feed_step(pending: Seq<u8>, b: u8) -> (Seq<u8>, Option<Seq<u8>>) {
    if is_line_end(b) {
        if pending.len() > 0 {
            (Seq::empty(), Some(pending))
        } else {
            (pending, None)
        }
    } else {
        (pending.push(b), None)
    }
}

/// The lines completed by feeding the bytes in order, and what is pending.
pub open spec fn feed_all(s: Seq<u8>) -> (Seq<Seq<u8>>, Seq<u8>)
    decreases s.len(),
{
    if s.len() == 0 {
        (Seq::empty(), Seq::empty())
    } else {
        let (lines, pending) = feed_all(s.drop_last());
        let (p, out) = feed_step(pending, s.last());
        match out {
            Some(l) => (lines.push(l), p),
            None => (lines, p),
        }
    }
}

/// What the end of the stream yields: the pending line if it is not empty.
pub open spec fn flush_pending(pending: Seq<u8>) -> Seq<Seq<u8>> {
    if pending.len() > 0 {
        seq![pending]
    } else {
        Seq::empty()
    }
}

pub open spec fn opt_bytes(o: Option<Vec<u8>>) -> Option<Seq<u8>> {
    match o {
        Some(v) => Some(v@),
        None => None,
    }
}

impl LineSplitter {
    /// A splitter with nothing pending.
    pub fn new() -> (r: LineSplitter)
        ensures
            r@ == Seq::<u8>::empty(),
    {
        LineSplitter { buf: Vec::new() }
    }

    /// Reads one byte; returns the line that it completes, if any.
    pub fn feed(&mut self, b: u8) -> (r: Option<Vec<u8>>)
        ensures
            (final(self)@, opt_bytes(r)) == feed_step(old(self)@, b),
    {
        if b == 10u8 || b == 13u8 {
            if self.buf.len() > 0 {
                let mut line: Vec<u8> = Vec::new();
                std::mem::swap(&mut line, &mut self.buf);
                Some(line)
            } else {
                None
            }
        } else {
            self.buf.push(b);
            None
        }
    }

    /// Ends the stream; returns the last line if it is not empty.
    pub fn finish(self) -> (r: Option<Vec<u8>>)
        ensures
            match r {
                Some(l) => self@.len() > 0 && l@ == self@,
                None => self@.len() == 0,
            },
    {
        if self.buf.len() > 0 {
            Some(self.buf)
        } else {
            None
        }
    }
}

/// Feeding a whole stream byte by byte and then finishing yields exactly
/// its lines: the non-empty runs between `\n` and `\r` bytes, in order.
pub proof fn law_splitter_yields_lines(s: Seq<u8>)
    ensures
        feed_all(s).0 + flush_pending(feed_all(s).1) == output_lines(s),
{
    lemma_feed_all_split(s);
}

proof fn lemma_feed_all_split(s: Seq<u8>)
    ensures
        feed_all(s).0 == nonempty(split_ends(s).0),
        feed_all(s).1 == split_ends(s).1,
        feed_all(s).0 + flush_pending(feed_all(s).1) == output_lines(s),
    decreases s.len(),
{
    if s.len() > 0 {
        lemma_feed_all_split(s.drop_last());
    }
    let (done, cur) = split_ends(s);
    if cur.len() > 0 {
        assert(done.push(cur).drop_last() =~= done);
    } else {
        assert(done.push(cur).drop_last() =~= done);
        assert(feed_all(s).0 + flush_pending(feed_all(s).1) =~= feed_all(s).0);
    }
}

/// A run of bytes without line endings.
pub open spec fn clean_piece(l: Seq<u8>) -> bool {
    forall|j: int| 0 <= j < l.len() ==> !is_line_end(#[trigger] l[j])
}

proof fn lemma_split_ends_clean(s: Seq<u8>)
    ensures
        forall|i: int| 0 <= i < split_ends(s).0.len() ==> clean_piece(#[trigger] split_ends(s).0[i]),
        clean_piece(split_ends(s).1),
    decreases s.len(),
{
    if s.len() > 0 {
        lemma_split_ends_clean(s.drop_last());
        let (done, cur) = split_ends(s.drop_last());
        if !is_line_end(s.last()) {
            assert forall|j: int| 0 <= j < cur.push(s.last()).len() implies !is_line_end(
                #[trigger] cur.push(s.last())[j],
            ) by {
                if j < cur.len() {
                    assert(cur.push(s.last())[j] == cur[j]);
                }
            }
        } else {
            assert forall|i: int| 0 <= i < done.push(cur).len() implies clean_piece(
                #[trigger] done.push(cur)[i],
            ) by {
                if i < done.len() {
                    assert(done.push(cur)[i] == done[i]);
                }
            }
        }
    }
}

proof fn lemma_nonempty_clean(s: Seq<Seq<u8>>)
    requires
        forall|i: int| 0 <= i < s.len() ==> clean_piece(#[trigger] s[i]),
    ensures
        forall|i: int|
            0 <= i < nonempty(s).len() ==> clean_piece(#[trigger] nonempty(s)[i]) && nonempty(
                s,
            )[i].len() > 0,
    decreases s.len(),
{
    if s.len() > 0 {
        assert forall|i: int| 0 <= i < s.drop_last().len() implies clean_piece(
            #[trigger] s.drop_last()[i],
        ) by {
            assert(s.drop_last()[i] == s[i]);
        }
        lemma_nonempty_clean(s.drop_last());
        let r = nonempty(s.drop_last());
        if s.last().len() > 0 {
            assert(clean_piece(s[s.len() - 1]));
            assert forall|i: int| 0 <= i < r.push(s.last()).len() implies clean_piece(
                #[trigger] r.push(s.last())[i],
            ) && r.push(s.last())[i].len() > 0 by {
                if i < r.len() {
                    assert(r.push(s.last())[i] == r[i]);
                }
            }
        }
    }
}

/// Every line of tool output is non-empty and holds no `\n` or `\r`.
pub proof fn law_lines_are_clean(s: Seq<u8>)
    ensures
        forall|i: int|
            0 <= i < output_lines(s).len() ==> clean_piece(#[trigger] output_lines(s)[i])
                && output_lines(s)[i].len() > 0,
{
    lemma_split_ends_clean(s);
    let (done, cur) = split_ends(s);
    assert forall|i: int| 0 <= i < done.push(cur).len() implies clean_piece(
        #[trigger] done.push(cur)[i],
    ) by {
        if i < done.len() {
            assert(done.push(cur)[i] == done[i]);
        }
    }
    lemma_nonempty_clean(done.push(cur));
}

/// Splits a whole output into lines as the streaming splitter would.
pub fn split_output_lines(data: &[u8]) -> (r: Vec<Vec<u8>>)
    ensures
        r@.map_values(|l: Vec<u8>| l@) == output_lines(data@),
{
    let mut sp = LineSplitter::new();
    let mut out: Vec<Vec<u8>> = Vec::new();
    let mut i: usize = 0;
    while i < data.len()
        invariant
            i <= data.len(),
            out@.map_values(|l: Vec<u8>| l@) == feed_all(data@.take(i as int)).0,
            sp@ == feed_all(data@.take(i as int)).1,
        decreases data.len() - i,
    {
        assert(data@.take(i + 1).drop_last() =~= data@.take(i as int));
        let ghost prev = out@;
        match sp.feed(data[i]) {
            Some(l) => {
                out.push(l);
            },
            None => {},
        }
        i = i + 1;
        assert(out@.map_values(|l: Vec<u8>| l@) =~= feed_all(data@.take(i as int)).0);
    }
    assert(data@.take(data.len() as int) =~= data@);
    let ghost pending = sp@;
    let ghost before = out@.map_values(|l: Vec<u8>| l@);
    match sp.finish() {
        Some(l) => {
            out.push(l);
            assert(out@.map_values(|l: Vec<u8>| l@) =~= before + flush_pending(pending));
        },
        None => {
            assert(out@.map_values(|l: Vec<u8>| l@) =~= before + flush_pending(pending));
        },
    }
    proof {
        law_splitter_yields_lines(data@);
    }
    out
}

// ---------------------------------------------------------------------------
// Decoding tool output
// ---------------------------------------------------------------------------

/// What `String::from_utf8_lossy` gives for bytes: their text, with each
/// ill-formed sequence replaced by U+FFFD. It depends on the bytes alone.
pub uninterp spec fn lossy_text(b: Seq<u8>) -> Seq<char>;

/// `String::from_utf8_lossy`: well-formed UTF-8 is decoded as is.
#[verifier::external_body]
pub(crate) fn decode_lossy(bytes: &[u8]) -> (r: String)
    ensures
        r@ == lossy_text(bytes@),
        valid_utf8(bytes@) ==> r@ == decode_utf8(bytes@),
{
    String::from_utf8_lossy(bytes).into_owned()
}

/// The version that `dpkg-query -W -f=${Version}` reported: its trimmed
/// output when the query succeeded and printed something, otherwise none
/// (the package is not installed).
pub fn installed_version_from(success: bool, stdout: &[u8]) -> (r: Option<String>)
    ensures
        match r {
            Some(v) => success && v@ == trim(lossy_text(stdout@)) && v@.len() > 0,
            None => !success || trim(lossy_text(stdout@)).len() == 0,
        },
{
    if !success {
        return None;
    }
    let text = decode_lossy(stdout);
    let cs = chars_of(text.as_str());
    let t = trim_chars(cs.as_slice());
    if t.len() == 0 {
        None
    } else {
        Some(string_of(t.as_slice()))
    }
}

/// The order of two Debian versions from the answers of
/// `dpkg --compare-versions`: equal if `eq` held, else less if `lt` held,
/// else greater.
pub fn dpkg_ordering(equal: bool, less: bool) -> (r: Ordering)
    ensures
        equal ==> r == Ordering::Equal,
        !equal && less ==> r == Ordering::Less,
        !equal && !less ==> r == Ordering::Greater,
{
    if equal {
        Ordering::Equal
    } else if less {
        Ordering::Less
    } else {
        Ordering::Greater
    }
}

} // verus!
