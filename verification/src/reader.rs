//! Reading bytes and PDF objects from data: the backtracking byte cursor,
//! the parse context, and the object grammar protocol — the parse and span
//! capabilities that every concrete syntax type provides.

use vstd::prelude::*;
use vstd::slice::{slice_index_get, slice_subrange};
use crate::chain::{chain_new, chain_view, AncestorChain};
use crate::object::ObjectIdentifier;
use crate::trivia::{
    comment_body_end, eol_run_end, is_eol_spec, is_white_space_spec, is_eol_character,
    is_white_space_character, lemma_run_end, lemma_run_end_step, ws_run_end, Comment,
};
use crate::xref::XRef;

verus! {

/// `tag` occurs verbatim in `s` at position `i`.
pub open spec fn tag_matches(s: Seq<u8>, i: int, tag: Seq<u8>) -> bool {
    &&& i + tag.len() <= s.len()
    &&& s.subrange(i, i + tag.len()) == tag
}

/// The set of bytes std's `u8::is_ascii_whitespace` accepts: space, TAB,
/// LF, FF and CR.
pub open spec fn is_ascii_ws_spec(b: u8) -> bool {
    b == 0x20 || b == 0x09 || b == 0x0a || b == 0x0c || b == 0x0d
}

/// How far consuming one whitespace byte at `i` advances: a CR directly
/// followed by an LF is one line terminator, two bytes; anything else is
/// one byte.
pub open spec fn white_space_advance(s: Seq<u8>, i: int) -> int {
    if s[i] == 0x0d && i + 1 < s.len() && s[i + 1] == 0x0a {
        2
    } else {
        1
    }
}

/// Consuming one line terminator advances exactly two bytes over a CR-LF
/// pair and exactly one byte over a lone LF: in effect the two inputs are
/// indistinguishable, and a CR-LF pair is never treated as two
/// terminators.
pub proof fn lemma_newline_normalization(s1: Seq<u8>, i: int, s2: Seq<u8>, j: int)
    requires
        0 <= i,
        i + 1 < s1.len(),
        s1[i] == 0x0d,
        s1[i + 1] == 0x0a,
        0 <= j < s2.len(),
        s2[j] == 0x0a,
    ensures
        white_space_advance(s1, i) == 2,
        white_space_advance(s2, j) == 1,
{
}

/// Where skipping an arbitrary mix of whitespace and comments starting at
/// `i` ends: the first position holding neither whitespace nor a `%`.
pub open spec fn wsc_end(s: Seq<u8>, i: int) -> int
    decreases s.len() - i
        when 0 <= i <= s.len()
        via wsc_end_decreases
{
    if i < s.len() {
        if is_white_space_spec(s[i]) {
            wsc_end(s, i + 1)
        } else if s[i] == 0x25 {
            wsc_end(s, comment_body_end(s, i + 1))
        } else {
            i
        }
    } else {
        i
    }
}

#[via_fn]
proof fn wsc_end_decreases(s: Seq<u8>, i: int) {
    if 0 <= i && i < s.len() && !is_white_space_spec(s[i]) && s[i] == 0x25 {
        lemma_run_end(s, i + 1, |b: u8| !is_eol_spec(b));
    }
}

/// A reader for reading bytes and PDF objects. It borrows the buffer and
/// carries only an offset; its invariant is that the offset never exceeds
/// the buffer's length.
#[derive(Clone, Copy, Debug)]
pub struct Reader<'a> {
    data: &'a [u8],
    offset: usize,
}

/// Carries what parsing needs besides the bytes: the cross-reference
/// resolver handle, whether the cursor is inside a content stream, the
/// object being parsed, and the chain of ancestor objects being resolved.
pub struct ReaderContext<'a> {
    pub xref: Option<&'a XRef>,
    pub in_content_stream: bool,
    pub obj_number: Option<ObjectIdentifier>,
    pub parent_chain: AncestorChain,
}

impl<'a> ReaderContext<'a> {
    /// The ancestor identifiers carried by this context.
    pub open spec fn spec_chain(&self) -> Seq<(u64, u64)> {
        chain_view(self.parent_chain)
    }

    pub fn new(xref: &'a XRef, in_content_stream: bool) -> (r: Self)
        ensures
            r.xref == Some(xref),
            r.in_content_stream == in_content_stream,
            r.obj_number is None,
            r.spec_chain() == Seq::<(u64, u64)>::empty(),
    {
        ReaderContext {
            xref: Some(xref),
            in_content_stream,
            obj_number: None,
            parent_chain: chain_new(),
        }
    }

    /// A context with no owning document: its resolver locates nothing.
    pub fn detached(in_content_stream: bool) -> (r: Self)
        ensures
            r.xref is None,
            r.in_content_stream == in_content_stream,
            r.obj_number is None,
            r.spec_chain() == Seq::<(u64, u64)>::empty(),
    {
        ReaderContext {
            xref: None,
            in_content_stream,
            obj_number: None,
            parent_chain: chain_new(),
        }
    }

    pub fn dummy() -> (r: Self)
        ensures
            r.xref is None,
            r.in_content_stream == false,
            r.obj_number is None,
            r.spec_chain() == Seq::<(u64, u64)>::empty(),
    {
        Self::detached(false)
    }
}

/// The parse capability: produce a value of this type from the cursor, or
/// fail. `spec_read` is the type's grammar: the value read at offset `i`
/// of `s` in the given mode, with the offset just past it. The generic
/// [`Reader::read`] wrapper restores the offset whenever an attempt fails.
pub trait Readable<'a>: Sized {
    spec fn spec_read(s: Seq<u8>, i: int, in_content_stream: bool) -> Option<(Self, int)>;

    fn read(r: &mut Reader<'a>, ctx: &ReaderContext<'a>) -> (res: Option<Self>)
        requires
            old(r).wf(),
        ensures
            final(r).wf(),
            final(r).spec_data() == old(r).spec_data(),
            match Self::spec_read(
                old(r).spec_data(),
                old(r).spec_offset(),
                ctx.in_content_stream,
            ) {
                Some((v, end)) => res == Some(v) && final(r).spec_offset() == end
                    && old(r).spec_offset() <= end <= old(r).spec_data().len(),
                None => res is None,
            },
    ;

    /// Reads a value out of a standalone buffer, with no owning document.
    fn from_bytes_impl(b: &'a [u8]) -> (res: Option<Self>)
        ensures
            match Self::spec_read(b@, 0, false) {
                Some((v, end)) => res == Some(v),
                None => res is None,
            },
    {
        let mut r = Reader::new(b);
        let ctx = ReaderContext::dummy();
        Self::read(&mut r, &ctx)
    }
}

/// The span capability: determine the byte range a value of this type
/// occupies, without materializing it. `spec_skip` gives the offset just
/// past the value read at `i` in the given mode.
pub trait Skippable {
    spec fn spec_skip(s: Seq<u8>, i: int, in_content_stream: bool) -> Option<int>;

    fn skip(r: &mut Reader<'_>, is_content_stream: bool) -> (res: Option<()>)
        requires
            old(r).wf(),
        ensures
            final(r).wf(),
            final(r).spec_data() == old(r).spec_data(),
            match Self::spec_skip(
                old(r).spec_data(),
                old(r).spec_offset(),
                is_content_stream,
            ) {
                Some(end) => res is Some && final(r).spec_offset() == end
                    && old(r).spec_offset() <= end <= old(r).spec_data().len(),
                None => res is None,
            },
    ;
}

/// A slice never holds more bytes than a `usize` counts.
proof fn lemma_data_len_bound(s: &[u8])
    ensures
        s@.len() <= usize::MAX,
{
    assert(vstd::slice::spec_slice_len(s) == s@.len());
}

impl<'a> Reader<'a> {
    /// The bytes this reader walks over.
    pub closed spec fn spec_data(&self) -> Seq<u8> {
        self.data@
    }

    /// The current position.
    pub closed spec fn spec_offset(&self) -> int {
        self.offset as int
    }

    /// The cursor invariant: the offset may equal the length (at end) but
    /// never exceed it.
    pub open spec fn wf(&self) -> bool {
        0 <= self.spec_offset() <= self.spec_data().len()
    }

    pub fn new(data: &'a [u8]) -> (r: Self)
        ensures
            r.spec_data() == data@,
            r.spec_offset() == 0,
            r.wf(),
    {
        Reader { data, offset: 0 }
    }

    pub fn new_with(data: &'a [u8], offset: usize) -> (r: Self)
        requires
            offset <= data@.len(),
        ensures
            r.spec_data() == data@,
            r.spec_offset() == offset,
            r.wf(),
    {
        Reader { data, offset }
    }

    pub fn at_end(&self) -> (r: bool)
        ensures
            r == (self.spec_offset() >= self.spec_data().len()),
    {
        self.offset >= self.data.len()
    }

    pub fn jump_to_end(&mut self)
        ensures
            final(self).spec_data() == old(self).spec_data(),
            final(self).spec_offset() == final(self).spec_data().len(),
            final(self).wf(),
    {
        self.offset = self.data.len();
    }

    pub fn jump(&mut self, offset: usize)
        requires
            offset <= old(self).spec_data().len(),
        ensures
            final(self).spec_data() == old(self).spec_data(),
            final(self).spec_offset() == offset,
            final(self).wf(),
    {
        self.offset = offset;
    }

    /// Everything from the current position to the end of the buffer.
    pub fn tail(&mut self) -> (res: Option<&'a [u8]>)
        requires
            old(self).wf(),
        ensures
            final(self).spec_data() == old(self).spec_data(),
            final(self).spec_offset() == old(self).spec_offset(),
            final(self).wf(),
            res matches Some(t) && t@ == old(self).spec_data().subrange(
                old(self).spec_offset(),
                old(self).spec_data().len() as int,
            ),
    {
        Some(slice_subrange(self.data, self.offset, self.data.len()))
    }

    pub fn len(&self) -> (r: usize)
        ensures
            r == self.spec_data().len(),
    {
        self.data.len()
    }

    /// The bytes of `start..end`, if that range lies inside the buffer.
    pub fn range(&self, start: usize, end: usize) -> (res: Option<&'a [u8]>)
        ensures
            res matches Some(b) ==> start <= end <= self.spec_data().len()
                && b@ == self.spec_data().subrange(start as int, end as int),
            res is None ==> !(start <= end && end <= self.spec_data().len()),
    {
        if start <= end && end <= self.data.len() {
            Some(slice_subrange(self.data, start, end))
        } else {
            None
        }
    }

    pub fn offset(&self) -> (r: usize)
        ensures
            r == self.spec_offset(),
    {
        self.offset
    }

    /// Reads `len` bytes and advances past them; on failure the offset is
    /// unchanged.
    pub fn read_bytes(&mut self, len: usize) -> (res: Option<&'a [u8]>)
        requires
            old(self).wf(),
        ensures
            final(self).wf(),
            final(self).spec_data() == old(self).spec_data(),
            old(self).spec_offset() + len <= old(self).spec_data().len() ==> {
                &&& res matches Some(b) && b@ == old(self).spec_data().subrange(
                    old(self).spec_offset(),
                    old(self).spec_offset() + len,
                )
                &&& final(self).spec_offset() == old(self).spec_offset() + len
            },
            old(self).spec_offset() + len > old(self).spec_data().len() ==> {
                res is None && final(self).spec_offset() == old(self).spec_offset()
            },
    {
        match self.peek_bytes(len) {
            Some(v) => {
                proof {
                    lemma_data_len_bound(self.data);
                }
                self.offset = self.offset + len;
                Some(v)
            },
            None => None,
        }
    }

    /// Reads one byte and advances past it; on failure the offset is
    /// unchanged.
    pub fn read_byte(&mut self) -> (res: Option<u8>)
        requires
            old(self).wf(),
        ensures
            final(self).wf(),
            final(self).spec_data() == old(self).spec_data(),
            old(self).spec_offset() < old(self).spec_data().len() ==> {
                &&& res == Some(old(self).spec_data()[old(self).spec_offset()])
                &&& final(self).spec_offset() == old(self).spec_offset() + 1
            },
            old(self).spec_offset() >= old(self).spec_data().len() ==> {
                res is None && final(self).spec_offset() == old(self).spec_offset()
            },
    {
        match self.peek_byte() {
            Some(v) => {
                proof {
                    lemma_data_len_bound(self.data);
                }
                self.offset = self.offset + 1;
                Some(v)
            },
            None => None,
        }
    }

    /// Attempts to parse a `T` at the current offset. On failure the offset
    /// is restored to its value before the attempt: grammars may need
    /// unbounded lookahead, so backtracking must be guaranteed here, once,
    /// rather than by each grammar.
    pub fn read<T: Readable<'a>>(&mut self, ctx: &ReaderContext<'a>) -> (res: Option<T>)
        requires
            old(self).wf(),
        ensures
            final(self).wf(),
            final(self).spec_data() == old(self).spec_data(),
            match T::spec_read(old(self).spec_data(), old(self).spec_offset(), ctx.in_content_stream) {
                Some((v, end)) => res == Some(v) && final(self).spec_offset() == end,
                None => res is None && final(self).spec_offset() == old(self).spec_offset(),
            },
    {
        let old_offset: usize = self.offset;
        match T::read(self, ctx) {
            Some(v) => Some(v),
            None => {
                self.offset = old_offset;
                None
            },
        }
    }

    pub fn read_with_context<T: Readable<'a>>(&mut self, ctx: &ReaderContext<'a>) -> (res: Option<
        T,
    >)
        requires
            old(self).wf(),
        ensures
            final(self).wf(),
            final(self).spec_data() == old(self).spec_data(),
            match T::spec_read(old(self).spec_data(), old(self).spec_offset(), ctx.in_content_stream) {
                Some((v, end)) => res == Some(v) && final(self).spec_offset() == end,
                None => res is None && final(self).spec_offset() == old(self).spec_offset(),
            },
    {
        self.read::<T>(ctx)
    }

    /// Reads a `T` with no owning document; references cannot occur, so
    /// the cursor behaves as inside a content stream.
    pub fn read_without_context<T: Readable<'a>>(&mut self) -> (res: Option<T>)
        requires
            old(self).wf(),
        ensures
            final(self).wf(),
            final(self).spec_data() == old(self).spec_data(),
            match T::spec_read(old(self).spec_data(), old(self).spec_offset(), true) {
                Some((v, end)) => res == Some(v) && final(self).spec_offset() == end,
                None => res is None && final(self).spec_offset() == old(self).spec_offset(),
            },
    {
        let ctx = ReaderContext::detached(true);
        self.read::<T>(&ctx)
    }

    /// Determines the span a `T` occupies and returns those raw bytes,
    /// without materializing the value. On failure the offset is restored.
    pub fn skip<T: Skippable>(&mut self, is_content_stream: bool) -> (res: Option<&'a [u8]>)
        requires
            old(self).wf(),
        ensures
            final(self).wf(),
            final(self).spec_data() == old(self).spec_data(),
            match T::spec_skip(old(self).spec_data(), old(self).spec_offset(), is_content_stream) {
                Some(end) => res matches Some(sp) && final(self).spec_offset() == end
                    && sp@ == old(self).spec_data().subrange(old(self).spec_offset(), end),
                None => res is None && final(self).spec_offset() == old(self).spec_offset(),
            },
    {
        let old_offset: usize = self.offset;
        match T::skip(self, is_content_stream) {
            Some(()) => Some(slice_subrange(self.data, old_offset, self.offset)),
            None => {
                self.offset = old_offset;
                None
            },
        }
    }

    pub fn skip_not_in_content_stream<T: Skippable>(&mut self) -> (res: Option<&'a [u8]>)
        requires
            old(self).wf(),
        ensures
            final(self).wf(),
            final(self).spec_data() == old(self).spec_data(),
            match T::spec_skip(old(self).spec_data(), old(self).spec_offset(), false) {
                Some(end) => res matches Some(sp) && final(self).spec_offset() == end
                    && sp@ == old(self).spec_data().subrange(old(self).spec_offset(), end),
                None => res is None && final(self).spec_offset() == old(self).spec_offset(),
            },
    {
        self.skip::<T>(false)
    }

    pub fn skip_in_content_stream<T: Skippable>(&mut self) -> (res: Option<&'a [u8]>)
        requires
            old(self).wf(),
        ensures
            final(self).wf(),
            final(self).spec_data() == old(self).spec_data(),
            match T::spec_skip(old(self).spec_data(), old(self).spec_offset(), true) {
                Some(end) => res matches Some(sp) && final(self).spec_offset() == end
                    && sp@ == old(self).spec_data().subrange(old(self).spec_offset(), end),
                None => res is None && final(self).spec_offset() == old(self).spec_offset(),
            },
    {
        self.skip::<T>(true)
    }

    pub fn skip_bytes(&mut self, len: usize) -> (res: Option<()>)
        requires
            old(self).wf(),
        ensures
            final(self).wf(),
            final(self).spec_data() == old(self).spec_data(),
            old(self).spec_offset() + len <= old(self).spec_data().len() ==> {
                res is Some && final(self).spec_offset() == old(self).spec_offset() + len
            },
            old(self).spec_offset() + len > old(self).spec_data().len() ==> {
                res is None && final(self).spec_offset() == old(self).spec_offset()
            },
    {
        match self.read_bytes(len) {
            Some(_) => Some(()),
            None => None,
        }
    }

    /// Reads `len` bytes without advancing; fails if they would run past
    /// the end of the buffer.
    pub fn peek_bytes(&self, len: usize) -> (res: Option<&'a [u8]>)
        requires
            self.wf(),
        ensures
            self.spec_offset() + len <= self.spec_data().len() ==> (res matches Some(b)
                && b@ == self.spec_data().subrange(
                self.spec_offset(),
                self.spec_offset() + len,
            )),
            self.spec_offset() + len > self.spec_data().len() ==> res is None,
    {
        if len <= self.data.len() - self.offset {
            Some(slice_subrange(self.data, self.offset, self.offset + len))
        } else {
            None
        }
    }

    /// Reads one byte without advancing.
    pub fn peek_byte(&self) -> (res: Option<u8>)
        requires
            self.wf(),
        ensures
            self.spec_offset() < self.spec_data().len() ==> res == Some(
                self.spec_data()[self.spec_offset()],
            ),
            self.spec_offset() >= self.spec_data().len() ==> res is None,
    {
        if self.offset < self.data.len() {
            Some(*slice_index_get(self.data, self.offset))
        } else {
            None
        }
    }

    /// Consumes exactly one byte if it satisfies the predicate; otherwise
    /// fails without consuming anything.
    pub fn eat<F: Fn(u8) -> bool>(&mut self, f: F) -> (res: Option<u8>)
        requires
            old(self).wf(),
            forall|b: u8| #[trigger] call_requires(f, (b,)),
        ensures
            final(self).wf(),
            final(self).spec_data() == old(self).spec_data(),
            res matches Some(b) ==> {
                &&& old(self).spec_offset() < old(self).spec_data().len()
                &&& b == old(self).spec_data()[old(self).spec_offset()]
                &&& final(self).spec_offset() == old(self).spec_offset() + 1
                &&& call_ensures(f, (b,), true)
            },
            res is None ==> {
                &&& final(self).spec_offset() == old(self).spec_offset()
                &&& (old(self).spec_offset() >= old(self).spec_data().len() || call_ensures(
                    f,
                    (old(self).spec_data()[old(self).spec_offset()],),
                    false,
                ))
            },
    {
        let val = match self.peek_byte() {
            Some(v) => v,
            None => {
                return None;
            },
        };
        if f(val) {
            self.forward();
            Some(val)
        } else {
            None
        }
    }

    /// Advances one byte. The caller must know the cursor is not at the
    /// end: the offset never exceeds the buffer's length.
    pub fn forward(&mut self)
        requires
            old(self).wf(),
            old(self).spec_offset() < old(self).spec_data().len(),
        ensures
            final(self).wf(),
            final(self).spec_data() == old(self).spec_data(),
            final(self).spec_offset() == old(self).spec_offset() + 1,
    {
        proof {
            lemma_data_len_bound(self.data);
        }
        self.offset = self.offset + 1;
    }

    /// Advances one byte if it satisfies the predicate.
    pub fn forward_if<F: Fn(u8) -> bool>(&mut self, f: F) -> (res: Option<()>)
        requires
            old(self).wf(),
            forall|b: u8| #[trigger] call_requires(f, (b,)),
        ensures
            final(self).wf(),
            final(self).spec_data() == old(self).spec_data(),
            res is Some ==> {
                &&& old(self).spec_offset() < old(self).spec_data().len()
                &&& final(self).spec_offset() == old(self).spec_offset() + 1
                &&& call_ensures(f, (old(self).spec_data()[old(self).spec_offset()],), true)
            },
            res is None ==> {
                &&& final(self).spec_offset() == old(self).spec_offset()
                &&& (old(self).spec_offset() >= old(self).spec_data().len() || call_ensures(
                    f,
                    (old(self).spec_data()[old(self).spec_offset()],),
                    false,
                ))
            },
    {
        let b = match self.peek_byte() {
            Some(v) => v,
            None => {
                return None;
            },
        };
        if f(b) {
            self.forward();
            Some(())
        } else {
            None
        }
    }

    /// Advances while the predicate holds; never fails, stopping at the
    /// first non-matching byte or at the end of the buffer.
    pub fn forward_while<F: Fn(u8) -> bool>(&mut self, f: F)
        requires
            old(self).wf(),
            forall|b: u8| #[trigger] call_requires(f, (b,)),
        ensures
            final(self).wf(),
            final(self).spec_data() == old(self).spec_data(),
            old(self).spec_offset() <= final(self).spec_offset(),
            forall|k: int|
                old(self).spec_offset() <= k < final(self).spec_offset() ==> call_ensures(
                    f,
                    (old(self).spec_data()[k],),
                    true,
                ),
            final(self).spec_offset() < final(self).spec_data().len() ==> call_ensures(
                f,
                (old(self).spec_data()[final(self).spec_offset()],),
                false,
            ),
    {
        loop
            invariant
                self.wf(),
                self.spec_data() == old(self).spec_data(),
                old(self).spec_offset() <= self.spec_offset(),
                forall|b: u8| #[trigger] call_requires(f, (b,)),
                forall|k: int|
                    old(self).spec_offset() <= k < self.spec_offset() ==> call_ensures(
                        f,
                        (old(self).spec_data()[k],),
                        true,
                    ),
            decreases self.spec_data().len() - self.spec_offset(),
        {
            let b = match self.peek_byte() {
                Some(v) => v,
                None => {
                    return ;
                },
            };
            if f(b) {
                self.forward();
            } else {
                return ;
            }
        }
    }

    /// Advances while the predicate holds, requiring at least one matching
    /// byte; fails without consuming anything when the first byte does not
    /// match.
    pub fn forward_while_1<F: Fn(u8) -> bool>(&mut self, f: F) -> (res: Option<()>)
        requires
            old(self).wf(),
            forall|b: u8| #[trigger] call_requires(f, (b,)),
        ensures
            final(self).wf(),
            final(self).spec_data() == old(self).spec_data(),
            res is Some ==> {
                &&& old(self).spec_offset() < final(self).spec_offset()
                &&& forall|k: int|
                    old(self).spec_offset() <= k < final(self).spec_offset() ==> call_ensures(
                        f,
                        (old(self).spec_data()[k],),
                        true,
                    )
                &&& (final(self).spec_offset() < final(self).spec_data().len() ==> call_ensures(
                    f,
                    (old(self).spec_data()[final(self).spec_offset()],),
                    false,
                ))
            },
            res is None ==> {
                &&& final(self).spec_offset() == old(self).spec_offset()
                &&& (old(self).spec_offset() >= old(self).spec_data().len() || call_ensures(
                    f,
                    (old(self).spec_data()[old(self).spec_offset()],),
                    false,
                ))
            },
    {
        let b = match self.peek_byte() {
            Some(v) => v,
            None => {
                return None;
            },
        };
        if f(b) {
            self.forward();
            self.forward_while(f);
            Some(())
        } else {
            None
        }
    }

    /// Advances past `tag` if it occurs verbatim at the current offset;
    /// fails without consuming anything otherwise.
    pub fn forward_tag(&mut self, tag: &[u8]) -> (res: Option<()>)
        requires
            old(self).wf(),
        ensures
            final(self).wf(),
            final(self).spec_data() == old(self).spec_data(),
            res is Some <==> tag_matches(old(self).spec_data(), old(self).spec_offset(), tag@),
            res is Some ==> final(self).spec_offset() == old(self).spec_offset() + tag@.len(),
            res is None ==> final(self).spec_offset() == old(self).spec_offset(),
    {
        match self.peek_tag(tag) {
            Some(()) => {
                proof {
                    lemma_data_len_bound(self.data);
                }
                self.offset = self.offset + tag.len();
                Some(())
            },
            None => None,
        }
    }

    /// Checks whether `tag` occurs verbatim at the current offset, via a
    /// throwaway copy of the cursor, so a failed match leaves this cursor
    /// untouched with no save/restore bookkeeping.
    pub fn peek_tag(&self, tag: &[u8]) -> (res: Option<()>)
        requires
            self.wf(),
        ensures
            res is Some <==> tag_matches(self.spec_data(), self.spec_offset(), tag@),
    {
        let mut cloned = self.clone();
        let mut i: usize = 0;
        while i < tag.len()
            invariant
                self.wf(),
                cloned.wf(),
                cloned.spec_data() == self.spec_data(),
                cloned.spec_offset() == self.spec_offset() + i,
                i <= tag@.len(),
                forall|k: int|
                    0 <= k < i ==> self.spec_data()[self.spec_offset() + k] == tag@[k],
            decreases tag@.len() - i,
        {
            let b = match cloned.peek_byte() {
                Some(v) => v,
                None => {
                    proof {
                        if tag_matches(self.spec_data(), self.spec_offset(), tag@) {
                            assert(self.spec_offset() + tag@.len() <= self.spec_data().len());
                        }
                    }
                    return None;
                },
            };
            if b == *slice_index_get(tag, i) {
                cloned.forward();
                i = i + 1;
            } else {
                proof {
                    if tag_matches(self.spec_data(), self.spec_offset(), tag@) {
                        assert(self.spec_data().subrange(
                            self.spec_offset(),
                            self.spec_offset() + tag@.len(),
                        )[i as int] == tag@[i as int]);
                    }
                }
                return None;
            }
        }
        proof {
            assert(self.spec_data().subrange(
                self.spec_offset(),
                self.spec_offset() + tag@.len(),
            ) =~= tag@);
        }
        Some(())
    }

    /// Absorbs a maximal run of PDF whitespace.
    pub fn skip_white_spaces(&mut self)
        requires
            old(self).wf(),
        ensures
            final(self).wf(),
            final(self).spec_data() == old(self).spec_data(),
            final(self).spec_offset() == ws_run_end(old(self).spec_data(), old(self).spec_offset()),
    {
        loop
            invariant
                self.wf(),
                self.spec_data() == old(self).spec_data(),
                ws_run_end(self.spec_data(), self.spec_offset()) == ws_run_end(
                    old(self).spec_data(),
                    old(self).spec_offset(),
                ),
            decreases self.spec_data().len() - self.spec_offset(),
        {
            let b = match self.peek_byte() {
                Some(v) => v,
                None => {
                    return ;
                },
            };
            if is_white_space_character(b) {
                proof {
                    lemma_run_end_step(
                        self.spec_data(),
                        self.spec_offset(),
                        |x: u8| is_white_space_spec(x),
                    );
                }
                self.forward();
            } else {
                return ;
            }
        }
    }

    /// Consumes one whitespace byte, treating a CR directly followed by an
    /// LF as a single line terminator of two bytes — never as two.
    pub fn read_white_space(&mut self) -> (res: Option<()>)
        requires
            old(self).wf(),
        ensures
            final(self).wf(),
            final(self).spec_data() == old(self).spec_data(),
            ({
                let s = old(self).spec_data();
                let i = old(self).spec_offset();
                if i < s.len() && is_ascii_ws_spec(s[i]) {
                    res is Some && final(self).spec_offset() == i + white_space_advance(s, i)
                } else {
                    res is None && final(self).spec_offset() == i
                }
            }),
    {
        let b = match self.peek_byte() {
            Some(v) => v,
            None => {
                return None;
            },
        };
        if b == 0x20 || b == 0x09 || b == 0x0a || b == 0x0c || b == 0x0d {
            self.forward();
            if b == 0x0d {
                match self.peek_byte() {
                    Some(n) => {
                        if n == 0x0a {
                            self.forward();
                        }
                    },
                    None => {},
                }
            }
            Some(())
        } else {
            None
        }
    }

    /// Absorbs a maximal run of end-of-line bytes.
    pub fn skip_eol_characters(&mut self)
        requires
            old(self).wf(),
        ensures
            final(self).wf(),
            final(self).spec_data() == old(self).spec_data(),
            final(self).spec_offset() == eol_run_end(
                old(self).spec_data(),
                old(self).spec_offset(),
            ),
    {
        loop
            invariant
                self.wf(),
                self.spec_data() == old(self).spec_data(),
                eol_run_end(self.spec_data(), self.spec_offset()) == eol_run_end(
                    old(self).spec_data(),
                    old(self).spec_offset(),
                ),
            decreases self.spec_data().len() - self.spec_offset(),
        {
            let b = match self.peek_byte() {
                Some(v) => v,
                None => {
                    return ;
                },
            };
            if is_eol_character(b) {
                proof {
                    lemma_run_end_step(self.spec_data(), self.spec_offset(), |x: u8| is_eol_spec(x));
                }
                self.forward();
            } else {
                return ;
            }
        }
    }

    /// Absorbs an arbitrary mix of whitespace runs and comments until
    /// neither applies.
    pub fn skip_white_spaces_and_comments(&mut self)
        requires
            old(self).wf(),
        ensures
            final(self).wf(),
            final(self).spec_data() == old(self).spec_data(),
            final(self).spec_offset() == wsc_end(old(self).spec_data(), old(self).spec_offset()),
    {
        loop
            invariant
                self.wf(),
                self.spec_data() == old(self).spec_data(),
                wsc_end(self.spec_data(), self.spec_offset()) == wsc_end(
                    old(self).spec_data(),
                    old(self).spec_offset(),
                ),
            decreases self.spec_data().len() - self.spec_offset(),
        {
            let b = match self.peek_byte() {
                Some(v) => v,
                None => {
                    return ;
                },
            };
            let ghost prev = self.spec_offset();
            if is_white_space_character(b) {
                proof {
                    lemma_wsc_ws_run(self.spec_data(), prev);
                    lemma_run_end_step(self.spec_data(), prev, |x: u8| is_white_space_spec(x));
                    lemma_run_end(self.spec_data(), prev + 1, |x: u8| is_white_space_spec(x));
                }
                self.skip_white_spaces();
            } else if b == 0x25 {
                let skipped = Comment::skip(self, true);
                proof {
                    assert(skipped is Some);
                    lemma_run_end(self.spec_data(), prev + 1, |x: u8| !is_eol_spec(x));
                }
            } else {
                return ;
            }
        }
    }
}

/// Skipping a whitespace run first never changes where the mixed
/// whitespace-and-comment skip ends.
proof fn lemma_wsc_ws_run(s: Seq<u8>, i: int)
    requires
        0 <= i <= s.len(),
    ensures
        wsc_end(s, i) == wsc_end(s, ws_run_end(s, i)),
    decreases s.len() - i,
{
    lemma_run_end(s, i, |b: u8| is_white_space_spec(b));
    if i < s.len() && is_white_space_spec(s[i]) {
        lemma_run_end_step(s, i, |b: u8| is_white_space_spec(b));
        lemma_wsc_ws_run(s, i + 1);
    }
}

} // verus!
