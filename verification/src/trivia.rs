//! PDF trivia: the whitespace and end-of-line byte classes, byte-run
//! helpers over them, and the comment grammar (`%` up to end of line).

use vstd::prelude::*;
use crate::reader::{Reader, Skippable};

verus! {

/// The PDF whitespace class: NUL, TAB, LF, FF, CR and space.
pub open spec fn is_white_space_spec(b: u8) -> bool {
    b == 0x00 || b == 0x09 || b == 0x0a || b == 0x0c || b == 0x0d || b == 0x20
}

/// The PDF end-of-line class: LF and CR.
pub open spec fn is_eol_spec(b: u8) -> bool {
    b == 0x0a || b == 0x0d
}

pub fn is_white_space_character(b: u8) -> (r: bool)
    ensures
        r == is_white_space_spec(b),
{
    b == 0x00 || b == 0x09 || b == 0x0a || b == 0x0c || b == 0x0d || b == 0x20
}

pub fn is_eol_character(b: u8) -> (r: bool)
    ensures
        r == is_eol_spec(b),
{
    b == 0x0a || b == 0x0d
}

/// First index at or after `i` whose byte fails `p`, or the end of `s`.
pub open spec fn run_end(s: Seq<u8>, i: int, p: spec_fn(u8) -> bool) -> int
    decreases s.len() - i
        when 0 <= i <= s.len()
{
    if i < s.len() && p(s[i]) {
        run_end(s, i + 1, p)
    } else {
        i
    }
}

/// A maximal run never moves backward, stays inside `s`, every byte of it
/// satisfies `p`, and the byte after it (if any) does not.
pub proof fn lemma_run_end(s: Seq<u8>, i: int, p: spec_fn(u8) -> bool)
    requires
        0 <= i <= s.len(),
    ensures
        i <= run_end(s, i, p) <= s.len(),
        forall|k: int| i <= k < run_end(s, i, p) ==> p(s[k]),
        run_end(s, i, p) < s.len() ==> !p(s[run_end(s, i, p)]),
    decreases s.len() - i,
{
    if i < s.len() && p(s[i]) {
        lemma_run_end(s, i + 1, p);
    }
}

/// A run is unchanged when entered anywhere inside itself.
pub proof fn lemma_run_end_step(s: Seq<u8>, i: int, p: spec_fn(u8) -> bool)
    requires
        0 <= i < s.len(),
        p(s[i]),
    ensures
        run_end(s, i, p) == run_end(s, i + 1, p),
{
}

pub open spec fn ws_run_end(s: Seq<u8>, i: int) -> int {
    run_end(s, i, |b: u8| is_white_space_spec(b))
}

pub open spec fn eol_run_end(s: Seq<u8>, i: int) -> int {
    run_end(s, i, |b: u8| is_eol_spec(b))
}

/// End of a comment body: the bytes after a `%` up to, and not including,
/// the next end-of-line byte.
pub open spec fn comment_body_end(s: Seq<u8>, i: int) -> int {
    run_end(s, i, |b: u8| !is_eol_spec(b))
}

/// The maximal run is the only position that closes a run: anything that
/// lies past `i`, follows only `p`-bytes, and stops at a non-`p` byte or
/// the end is `run_end` itself.
pub proof fn lemma_run_end_unique(s: Seq<u8>, i: int, j: int, p: spec_fn(u8) -> bool)
    requires
        0 <= i <= j <= s.len(),
        forall|k: int| i <= k < j ==> p(s[k]),
        j < s.len() ==> !p(s[j]),
    ensures
        run_end(s, i, p) == j,
    decreases j - i,
{
    if i < j {
        lemma_run_end_unique(s, i + 1, j, p);
    }
}

/// A comment token: `%` followed by every byte up to the next end of line.
pub struct Comment;

impl Skippable for Comment {
    /// A comment starts with `%` and covers everything up to, and not
    /// including, the next end-of-line byte; the flag plays no role.
    open spec fn spec_skip(s: Seq<u8>, i: int, in_content_stream: bool) -> Option<int> {
        if i < s.len() && s[i] == 0x25 {
            Some(comment_body_end(s, i + 1))
        } else {
            None
        }
    }

    fn skip(r: &mut Reader<'_>, is_content_stream: bool) -> (res: Option<()>) {
        let b = match r.peek_byte() {
            Some(v) => v,
            None => {
                return None;
            },
        };
        if b != 0x25 {
            return None;
        }
        let ghost start = r.spec_offset();
        r.forward();
        let not_eol = |x: u8| -> (keep: bool)
            ensures
                keep == !is_eol_spec(x),
            {
                !(x == 0x0a || x == 0x0d)
            };
        r.forward_while(not_eol);
        proof {
            lemma_run_end_unique(
                r.spec_data(),
                start + 1,
                r.spec_offset(),
                |x: u8| !is_eol_spec(x),
            );
        }
        Some(())
    }
}

} // verus!
