//! Locating the front-matter block at the start of a document.
//!
//! A block opens with `---` and a line ending at the very first byte of the
//! file, and closes with a line ending, `---` and the same line ending. The
//! scanner below consumes the file in chunks of any size and never needs the
//! whole file in memory.
use vstd::prelude::*;
use vstd::utf8::{decode_utf8, valid_utf8};

verus! {

/// The line-ending style of a front-matter delimiter.
#[derive(Clone, Copy, Debug, PartialEq, Eq, Structural)]
pub enum LineEnding {
    CrLf,
    Lf,
    Cr,
}

impl LineEnding {
    /// The bytes of the line ending itself.
    pub open spec fn eol(self) -> Seq<u8> {
        match self {
            LineEnding::CrLf => seq![13u8, 10u8],
            LineEnding::Lf => seq![10u8],
            LineEnding::Cr => seq![13u8],
        }
    }

    /// `---` followed by the line ending.
    pub open spec fn opening(self) -> Seq<u8> {
        seq![45u8, 45u8, 45u8] + self.eol()
    }

    /// The line ending, `---`, and the line ending again.
    pub open spec fn closing(self) -> Seq<u8> {
        self.eol() + seq![45u8, 45u8, 45u8] + self.eol()
    }

    fn eol_bytes(self) -> (r: Vec<u8>)
        ensures
            r@ == self.eol(),
    {
        let mut r: Vec<u8> = Vec::new();
        match self {
            LineEnding::CrLf => {
                r.push(13u8);
                r.push(10u8);
            },
            LineEnding::Lf => {
                r.push(10u8);
            },
            LineEnding::Cr => {
                r.push(13u8);
            },
        }
        assert(r@ =~= self.eol());
        r
    }

    /// The closing delimiter that goes with this line ending.
    pub fn closing_bytes(self) -> (r: Vec<u8>)
        ensures
            r@ == self.closing(),
    {
        let mut r = self.eol_bytes();
        r.push(45u8);
        r.push(45u8);
        r.push(45u8);
        let mut tail = self.eol_bytes();
        r.append(&mut tail);
        assert(r@ =~= self.closing());
        r
    }
}

/// `s` begins with `prefix`.
pub open spec fn starts_with(s: Seq<u8>, prefix: Seq<u8>) -> bool {
    prefix.len() <= s.len() && s.subrange(0, prefix.len() as int) == prefix
}

/// The opening delimiter that `content` begins with, if any. `---\r\n` is
/// tried before `---\n` and `---\r`.
pub open spec fn opening_of(content: Seq<u8>) -> Option<LineEnding> {
    if starts_with(content, LineEnding::CrLf.opening()) {
        Some(LineEnding::CrLf)
    } else if starts_with(content, LineEnding::Lf.opening()) {
        Some(LineEnding::Lf)
    } else if starts_with(content, LineEnding::Cr.opening()) {
        Some(LineEnding::Cr)
    } else {
        None
    }
}

/// `pat` occurs in `s` at index `i`.
pub open spec fn occurs_at(s: Seq<u8>, pat: Seq<u8>, i: int) -> bool {
    0 <= i && i + pat.len() <= s.len() && s.subrange(i, i + pat.len()) == pat
}

/// `i` is the first index at which `pat` occurs in `s`.
pub open spec fn first_at(s: Seq<u8>, pat: Seq<u8>, i: int) -> bool {
    &&& occurs_at(s, pat, i)
    &&& forall|j: int| 0 <= j < i ==> !#[trigger] occurs_at(s, pat, j)
}

/// What follows the opening delimiter.
pub open spec fn after_opening(content: Seq<u8>, e: LineEnding) -> Seq<u8> {
    content.subrange(e.opening().len() as int, content.len() as int)
}

/// The bytes strictly between the opening delimiter at the start of
/// `content` and the first matching closing delimiter after it, or `None`
/// when `content` is shorter than five bytes, does not open with a delimiter,
/// or never closes the block.
pub open spec fn block_of(content: Seq<u8>) -> Option<Seq<u8>> {
    if content.len() < 5 {
        None
    } else {
        match opening_of(content) {
            None => None,
            Some(e) => {
                let body = after_opening(content, e);
                if exists|i: int| #[trigger] occurs_at(body, e.closing(), i) {
                    Some(body.subrange(0, choose|i: int| first_at(body, e.closing(), i)))
                } else {
                    None
                }
            },
        }
    }
}

/// The first occurrence is unique, so `choose` picks it.
proof fn lemma_first_unique(s: Seq<u8>, pat: Seq<u8>, i: int)
    requires
        first_at(s, pat, i),
    ensures
        (choose|j: int| first_at(s, pat, j)) == i,
{
    let c = choose|j: int| first_at(s, pat, j);
    assert(first_at(s, pat, c));
    if c < i {
        assert(!occurs_at(s, pat, c));
    } else if i < c {
        assert(!occurs_at(s, pat, i));
    }
}

/// Bytes that arrive after the block has closed do not change it.
proof fn lemma_block_extends(s: Seq<u8>, t: Seq<u8>)
    requires
        block_of(s) is Some,
    ensures
        block_of(s + t) == block_of(s),
{
    let st = s + t;
    let e = opening_of(s)->0;
    assert(st.subrange(0, 5) =~= s.subrange(0, 5));
    assert(st.subrange(0, LineEnding::CrLf.opening().len() as int) =~= s.subrange(
        0,
        LineEnding::CrLf.opening().len() as int,
    ));
    assert(st.subrange(0, LineEnding::Lf.opening().len() as int) =~= s.subrange(
        0,
        LineEnding::Lf.opening().len() as int,
    ));
    assert(st.subrange(0, LineEnding::Cr.opening().len() as int) =~= s.subrange(
        0,
        LineEnding::Cr.opening().len() as int,
    ));
    assert(opening_of(st) == Some(e));
    let body = after_opening(s, e);
    let body2 = after_opening(st, e);
    assert(body2 =~= body + t);
    let pat = e.closing();
    let i = choose|i: int| first_at(body, pat, i);
    assert(exists|i: int| occurs_at(body, pat, i));
    let w = choose|i: int| occurs_at(body, pat, i);
    lemma_first_exists(body, pat, w);
    assert(first_at(body, pat, i));
    assert(body2.subrange(i, i + pat.len()) =~= body.subrange(i, i + pat.len()));
    assert forall|j: int| 0 <= j < i implies !#[trigger] occurs_at(body2, pat, j) by {
        assert(body2.subrange(j, j + pat.len()) =~= body.subrange(j, j + pat.len()));
        assert(!occurs_at(body, pat, j));
    }
    assert(first_at(body2, pat, i));
    assert(occurs_at(body2, pat, i));
    lemma_first_unique(body2, pat, i);
    assert(body2.subrange(0, i) =~= body.subrange(0, i));
}

/// An occurrence implies a first occurrence.
proof fn lemma_first_exists(s: Seq<u8>, pat: Seq<u8>, i: int)
    requires
        occurs_at(s, pat, i),
    ensures
        exists|j: int| first_at(s, pat, j),
    decreases i,
{
    if exists|j: int| 0 <= j < i && #[trigger] occurs_at(s, pat, j) {
        let j = choose|j: int| 0 <= j < i && #[trigger] occurs_at(s, pat, j);
        lemma_first_exists(s, pat, j);
    } else {
        assert(first_at(s, pat, i));
    }
}

/// Whether `pat` occurs in `buf` at `i`.
fn matches_at(buf: &Vec<u8>, pat: &Vec<u8>, i: usize) -> (r: bool)
    requires
        i + pat@.len() <= buf@.len(),
    ensures
        r == occurs_at(buf@, pat@, i as int),
{
    let n = buf.len();
    let mut k: usize = 0;
    while k < pat.len()
        invariant
            n == buf@.len(),
            k <= pat@.len(),
            i + pat@.len() <= buf@.len(),
            forall|m: int| 0 <= m < k ==> buf@[i + m] == pat@[m],
        decreases pat@.len() - k,
    {
        if buf[i + k] != pat[k] {
            assert(buf@.subrange(i as int, i + pat@.len())[k as int] != pat@[k as int]);
            return false;
        }
        k = k + 1;
    }
    assert(buf@.subrange(i as int, i + pat@.len()) =~= pat@);
    true
}

/// The first index at or after `start` where `pat` occurs in `buf`, given
/// that it occurs nowhere before `start`.
fn find_from(buf: &Vec<u8>, pat: &Vec<u8>, start: usize) -> (r: Option<usize>)
    requires
        pat@.len() > 0,
        forall|j: int| 0 <= j < start ==> !#[trigger] occurs_at(buf@, pat@, j),
    ensures
        match r {
            Some(i) => first_at(buf@, pat@, i as int),
            None => forall|j: int| !#[trigger] occurs_at(buf@, pat@, j),
        },
{
    if pat.len() > buf.len() {
        return None;
    }
    let n = buf.len();
    let last = n - pat.len();
    let mut i = start;
    while i <= last
        invariant
            n == buf@.len(),
            last == buf@.len() - pat@.len(),
            pat@.len() > 0,
            forall|j: int| 0 <= j < i ==> !#[trigger] occurs_at(buf@, pat@, j),
        decreases last + 1 - i,
    {
        if matches_at(buf, pat, i) {
            return Some(i);
        }
        i = i + 1;
    }
    None
}

/// A front-matter block being read chunk by chunk.
pub struct PreambleScanner {
    ending: LineEnding,
    closing: Vec<u8>,
    /// Everything read so far after the opening delimiter.
    buf: Vec<u8>,
    /// Where the closing delimiter starts in `buf`, once it has been found.
    closed_at: Option<usize>,
    seen: Ghost<Seq<u8>>,
}

impl PreambleScanner {
    /// All bytes of the file consumed so far.
    pub closed spec fn seen(&self) -> Seq<u8> {
        self.seen@
    }

    /// The closing delimiter has been found.
    pub closed spec fn is_closed(&self) -> bool {
        self.closed_at is Some
    }

    pub closed spec fn wf(&self) -> bool {
        &&& self.seen@.len() >= 5
        &&& opening_of(self.seen@) == Some(self.ending)
        &&& self.closing@ == self.ending.closing()
        &&& self.buf@ == after_opening(self.seen@, self.ending)
        &&& match self.closed_at {
            Some(i) => first_at(self.buf@, self.closing@, i as int),
            None => forall|j: int| !#[trigger] occurs_at(self.buf@, self.closing@, j),
        }
    }

    proof fn lemma_state(&self)
        requires
            self.wf(),
        ensures
            self.is_closed() <==> block_of(self.seen()) is Some,
            self.closed_at matches Some(i) ==> block_of(self.seen()) == Some(
                self.buf@.subrange(0, i as int),
            ),
    {
        let body = after_opening(self.seen@, self.ending);
        if let Some(i) = self.closed_at {
            assert(occurs_at(body, self.ending.closing(), i as int));
            lemma_first_unique(body, self.ending.closing(), i as int);
        }
    }

    /// Whether the closing delimiter has been found.
    pub fn is_closed_now(&self) -> (r: bool)
        ensures
            r == self.is_closed(),
    {
        self.closed_at.is_some()
    }

    /// Starts a scan on the first bytes of a file. `None` when they are
    /// fewer than five or do not begin with an opening delimiter.
    pub fn open(head: &[u8]) -> (r: Option<PreambleScanner>)
        ensures
            r is None <==> head@.len() < 5 || opening_of(head@) is None,
            r matches Some(sc) ==> {
                &&& sc.wf()
                &&& sc.seen() == head@
                &&& sc.is_closed() <==> block_of(head@) is Some
            },
    {
        if head.len() < 5 {
            return None;
        }
        let ending = if head[0] == 45u8 && head[1] == 45u8 && head[2] == 45u8 && head[3] == 13u8
            && head[4] == 10u8 {
            LineEnding::CrLf
        } else if head[0] == 45u8 && head[1] == 45u8 && head[2] == 45u8 && head[3] == 10u8 {
            LineEnding::Lf
        } else if head[0] == 45u8 && head[1] == 45u8 && head[2] == 45u8 && head[3] == 13u8 {
            LineEnding::Cr
        } else {
            proof {
                if starts_with(head@, LineEnding::CrLf.opening()) {
                    assert(head@[3] == head@.subrange(0, 5)[3]);
                }
                if starts_with(head@, LineEnding::Lf.opening()) {
                    assert(head@[3] == head@.subrange(0, 4)[3]);
                }
                if starts_with(head@, LineEnding::Cr.opening()) {
                    assert(head@[3] == head@.subrange(0, 4)[3]);
                }
                assert(head@[0] == head@.subrange(0, 4)[0]);
                assert(head@[1] == head@.subrange(0, 4)[1]);
                assert(head@[2] == head@.subrange(0, 4)[2]);
            }
            return None;
        };
        proof {
            assert(head@.subrange(0, 4) =~= seq![head@[0], head@[1], head@[2], head@[3]]);
            assert(head@.subrange(0, 5) =~= seq![head@[0], head@[1], head@[2], head@[3], head@[4]]);
            assert(LineEnding::CrLf.opening() =~= seq![45u8, 45u8, 45u8, 13u8, 10u8]);
            assert(LineEnding::Lf.opening() =~= seq![45u8, 45u8, 45u8, 10u8]);
            assert(LineEnding::Cr.opening() =~= seq![45u8, 45u8, 45u8, 13u8]);
        }
        let skip: usize = match ending {
            LineEnding::CrLf => 5,
            _ => 4,
        };
        let mut buf: Vec<u8> = Vec::new();
        let mut i = skip;
        while i < head.len()
            invariant
                skip <= i <= head@.len(),
                buf@ == head@.subrange(skip as int, i as int),
            decreases head@.len() - i,
        {
            buf.push(head[i]);
            i = i + 1;
            assert(buf@ =~= head@.subrange(skip as int, i as int));
        }
        let closing = ending.closing_bytes();
        let closed_at = find_from(&buf, &closing, 0);
        let sc = PreambleScanner { ending, closing, buf, closed_at, seen: Ghost(head@) };
        proof {
            sc.lemma_state();
        }
        Some(sc)
    }

    /// Consumes the next chunk of the file and reports whether the block has
    /// closed. Once it has, further chunks are ignored.
    pub fn feed(&mut self, chunk: &[u8]) -> (closed: bool)
        requires
            old(self).wf(),
        ensures
            final(self).wf(),
            closed == final(self).is_closed(),
            old(self).is_closed() ==> final(self).seen() == old(self).seen(),
            !old(self).is_closed() ==> final(self).seen() == old(self).seen() + chunk@,
            final(self).is_closed() <==> block_of(final(self).seen()) is Some,
    {
        if self.closed_at.is_some() {
            proof {
                self.lemma_state();
            }
            return true;
        }
        let k = self.closing.len();
        let start: usize = if self.buf.len() >= k - 1 {
            self.buf.len() - (k - 1)
        } else {
            0
        };
        let ghost old_buf = self.buf@;
        let mut i: usize = 0;
        while i < chunk.len()
            invariant
                i <= chunk@.len(),
                self.buf@ == old_buf + chunk@.subrange(0, i as int),
                self.seen == old(self).seen,
                self.ending == old(self).ending,
                self.closing == old(self).closing,
                self.closed_at == old(self).closed_at,
            decreases chunk@.len() - i,
        {
            self.buf.push(chunk[i]);
            i = i + 1;
            assert(self.buf@ =~= old_buf + chunk@.subrange(0, i as int));
        }
        assert(chunk@.subrange(0, chunk@.len() as int) =~= chunk@);
        let ghost new_seen = self.seen@ + chunk@;
        proof {
            assert(new_seen.subrange(0, 5) =~= self.seen@.subrange(0, 5));
            assert(new_seen.subrange(0, 4) =~= self.seen@.subrange(0, 4));
            assert(after_opening(new_seen, self.ending) =~= old_buf + chunk@);
            assert forall|j: int| 0 <= j < start implies !#[trigger] occurs_at(
                self.buf@,
                self.closing@,
                j,
            ) by {
                if occurs_at(self.buf@, self.closing@, j) {
                    assert(self.buf@.subrange(j, j + k) =~= old_buf.subrange(j, j + k));
                    assert(occurs_at(old_buf, self.closing@, j));
                }
            }
        }
        self.seen = Ghost(new_seen);
        let found = find_from(&self.buf, &self.closing, start);
        self.closed_at = found;
        proof {
            self.lemma_state();
        }
        found.is_some()
    }

    /// The bytes of the block, once it has closed.
    pub fn into_block(self) -> (r: Option<Vec<u8>>)
        requires
            self.wf(),
        ensures
            match r {
                Some(b) => block_of(self.seen()) == Some(b@),
                None => block_of(self.seen()) is None,
            },
    {
        proof {
            self.lemma_state();
        }
        match self.closed_at {
            Some(i) => {
                let mut buf = self.buf;
                buf.truncate(i);
                assert(buf@ =~= self.buf@.subrange(0, i as int));
                Some(buf)
            },
            None => None,
        }
    }
}

/// Why a block that was found could not be read as text.
#[derive(Clone, Copy, Debug, PartialEq, Eq, Structural)]
pub enum PreambleError {
    /// The block is not well-formed UTF-8.
    Encoding,
}

/// `r` is what reading `block` as text gives: nothing when there is no
/// block, the decoded text when it is well-formed UTF-8, an encoding error
/// otherwise.
pub open spec fn text_result(r: Result<Option<String>, PreambleError>, block: Option<Seq<u8>>) -> bool {
    match block {
        None => r is Ok && r->Ok_0 is None,
        Some(b) => if valid_utf8(b) {
            r is Ok && r->Ok_0 is Some && r->Ok_0->0@ == decode_utf8(b)
        } else {
            r == Err::<Option<String>, PreambleError>(PreambleError::Encoding)
        },
    }
}

/// Relies on std::str::from_utf8: it accepts exactly the well-formed UTF-8
/// byte sequences, and the text it gives back is the one they encode.
#[verifier::external_body]
fn utf8_text(bytes: &[u8]) -> (r: Option<String>)
    ensures
        r is Some <==> valid_utf8(bytes@),
        r matches Some(t) ==> t@ == decode_utf8(bytes@),
{
    std::str::from_utf8(bytes).ok().map(|t| t.to_owned())
}

/// Reads a block, if there is one, as UTF-8 text.
pub fn decode_block(block: Option<Vec<u8>>) -> (r: Result<Option<String>, PreambleError>)
    ensures
        text_result(
            r,
            match block {
                Some(b) => Some(b@),
                None => None,
            },
        ),
{
    match block {
        None => Ok(None),
        Some(b) => match utf8_text(b.as_slice()) {
            Some(t) => Ok(Some(t)),
            None => Err(PreambleError::Encoding),
        },
    }
}

fn copy_range(s: &[u8], from: usize, to: usize) -> (r: Vec<u8>)
    requires
        from <= to <= s@.len(),
    ensures
        r@ == s@.subrange(from as int, to as int),
{
    let mut r: Vec<u8> = Vec::new();
    let mut i = from;
    while i < to
        invariant
            from <= i <= to <= s@.len(),
            r@ == s@.subrange(from as int, i as int),
        decreases to - i,
    {
        r.push(s[i]);
        i = i + 1;
        assert(r@ =~= s@.subrange(from as int, i as int));
    }
    r
}

/// Finds the block of `content` by handing it to a scanner in chunks of
/// `chunk_size` bytes after a five-byte lookahead. The result is the block
/// of the whole content, whatever the chunk size.
pub fn extract_block(content: &[u8], chunk_size: usize) -> (r: Option<Vec<u8>>)
    requires
        chunk_size > 0,
    ensures
        match r {
            Some(b) => block_of(content@) == Some(b@),
            None => block_of(content@) is None,
        },
{
    let n = content.len();
    if n < 5 {
        return None;
    }
    let head = copy_range(content, 0, 5);
    let mut sc = match PreambleScanner::open(head.as_slice()) {
        Some(sc) => sc,
        None => {
            proof {
                assert(content@.subrange(0, 5).subrange(0, 4) =~= content@.subrange(0, 4));
                assert(content@.subrange(0, 5).subrange(0, 5) =~= content@.subrange(0, 5));
            }
            return None;
        },
    };
    let mut pos: usize = 5;
    let mut closed = sc.is_closed_now();
    while !closed && pos < n
        invariant
            n == content@.len(),
            5 <= pos <= n,
            sc.wf(),
            sc.seen() == content@.subrange(0, pos as int),
            closed == sc.is_closed(),
            closed <==> block_of(sc.seen()) is Some,
            chunk_size > 0,
        decreases n - pos,
    {
        let end = if chunk_size >= n - pos {
            n
        } else {
            pos + chunk_size
        };
        let chunk = copy_range(content, pos, end);
        closed = sc.feed(chunk.as_slice());
        proof {
            assert(content@.subrange(0, pos as int) + content@.subrange(pos as int, end as int)
                =~= content@.subrange(0, end as int));
        }
        pos = end;
    }
    proof {
        if closed {
            lemma_block_extends(sc.seen(), content@.subrange(pos as int, n as int));
            assert(sc.seen() + content@.subrange(pos as int, n as int) =~= content@);
        } else {
            assert(sc.seen() =~= content@);
        }
    }
    sc.into_block()
}

/// The text of the front-matter block of a file held in memory: `None` when
/// there is no block, an error when it is not UTF-8.
pub fn read_md_preamble(content: &[u8]) -> (r: Result<Option<String>, PreambleError>)
    ensures
        text_result(r, block_of(content@)),
{
    decode_block(extract_block(content, 4096))
}

/// A block written as `---\n`, the text, `\n---\n` and any body comes back
/// as exactly that text, provided the text does not itself close the block
/// early; read as UTF-8, it gives back the characters the text encodes.
pub proof fn lemma_round_trip(text: Seq<u8>, body: Seq<u8>)
    requires
        forall|j: int|
            0 <= j < text.len() ==> !#[trigger] occurs_at(
                text + LineEnding::Lf.closing(),
                LineEnding::Lf.closing(),
                j,
            ),
    ensures
        block_of(LineEnding::Lf.opening() + text + LineEnding::Lf.closing() + body) == Some(
            text,
        ),
        valid_utf8(text) ==> forall|r: Result<Option<String>, PreambleError>|
            #[trigger] text_result(
                r,
                block_of(LineEnding::Lf.opening() + text + LineEnding::Lf.closing() + body),
            ) ==> r is Ok && r->Ok_0 is Some && r->Ok_0->0@ == decode_utf8(text),
{
    let e = LineEnding::Lf;
    let pat = e.closing();
    let content = e.opening() + text + pat + body;
    assert(content.subrange(0, 4) =~= e.opening());
    assert(content[3] == 10u8);
    assert(content.subrange(0, 5)[3] == 10u8);
    assert(opening_of(content) == Some(e));
    let b = after_opening(content, e);
    assert(b =~= text + pat + body);
    let i = text.len() as int;
    assert(b.subrange(i, i + pat.len()) =~= pat);
    assert forall|j: int| 0 <= j < i implies !#[trigger] occurs_at(b, pat, j) by {
        assert(b.subrange(j, j + pat.len()) =~= (text + pat).subrange(j, j + pat.len()));
        assert(!occurs_at(text + pat, pat, j));
    }
    assert(first_at(b, pat, i));
    lemma_first_unique(b, pat, i);
    assert(b.subrange(0, i) =~= text);
}

/// Content that does not open with a delimiter, or whose block never
/// closes, has no block: reading it gives no text rather than an error.
pub proof fn lemma_no_block(content: Seq<u8>)
    requires
        opening_of(content) is None || ({
            let e = opening_of(content)->0;
            forall|i: int| !#[trigger] occurs_at(after_opening(content, e), e.closing(), i)
        }),
    ensures
        block_of(content) is None,
        forall|r: Result<Option<String>, PreambleError>|
            #[trigger] text_result(r, block_of(content)) ==> r is Ok && r->Ok_0 is None,
{
}

} // verus!
