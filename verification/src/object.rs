//! Concrete syntax objects and their grammars: integer tokens, the
//! indirect-reference token `N G R`, content-stream operators, and the
//! context-aware value dispatch that tells a plain number from the start
//! of an indirect reference.

use vstd::prelude::*;
use crate::reader::{Reader, ReaderContext, Readable, Skippable};
use crate::trivia::{
    is_white_space_spec, lemma_run_end, lemma_run_end_unique, run_end, ws_run_end,
};

verus! {

/// Identifies an indirect object: its number and its generation. The core
/// needs identity only, for cycle detection.
#[derive(Clone, Copy, PartialEq, Eq, Structural, Debug)]
pub struct ObjectIdentifier {
    pub number: u64,
    pub generation: u64,
}

/// A syntax value of the minimal alphabet this core dispatches over: a
/// number, or an indirect reference to another object.
#[derive(Clone, Copy, PartialEq, Eq, Structural, Debug)]
pub enum Object {
    Int(i64),
    Ref(ObjectIdentifier),
}

pub open spec fn is_digit(b: u8) -> bool {
    0x30 <= b && b <= 0x39
}

pub open spec fn digit_run_end(s: Seq<u8>, i: int) -> int {
    run_end(s, i, |b: u8| is_digit(b))
}

/// The base-ten value of the digits `s[i..j]`.
pub open spec fn digits_value(s: Seq<u8>, i: int, j: int) -> int
    decreases j - i,
{
    if i < j {
        digits_value(s, i, j - 1) * 10 + (s[j - 1] - 0x30)
    } else {
        0
    }
}

/// The unsigned integer token at `i`: its value and the offset just past
/// its digits, if at least one digit stands at `i`.
pub open spec fn uint_parse(s: Seq<u8>, i: int) -> Option<(int, int)> {
    let e = digit_run_end(s, i);
    if e > i {
        Some((digits_value(s, i, e), e))
    } else {
        None
    }
}

/// The signed integer token at `i`: an optional `+` or `-` sign, then
/// digits.
pub open spec fn int_parse(s: Seq<u8>, i: int) -> Option<(int, int)> {
    if 0 <= i < s.len() && (s[i] == 0x2b || s[i] == 0x2d) {
        match uint_parse(s, i + 1) {
            Some((v, e)) => Some((if s[i] == 0x2d { -v } else { v }, e)),
            None => None,
        }
    } else {
        uint_parse(s, i)
    }
}

/// The integer object at `i`: a signed integer token whose value fits the
/// machine representation; a value out of range does not match.
pub open spec fn integer_parse(s: Seq<u8>, i: int) -> Option<(i64, int)> {
    match int_parse(s, i) {
        Some((v, e)) => if i64::MIN <= v <= i64::MAX {
            Some((v as i64, e))
        } else {
            None
        },
        None => None,
    }
}

/// The indirect-reference token at `i`: an object number, whitespace, a
/// generation number, whitespace, and the keyword `R`.
pub open spec fn objref_parse(s: Seq<u8>, i: int) -> Option<(ObjectIdentifier, int)> {
    match uint_parse(s, i) {
        None => None,
        Some((num, e1)) => if num > u64::MAX {
            None
        } else {
            let w1 = ws_run_end(s, e1);
            if w1 == e1 {
                None
            } else {
                match uint_parse(s, w1) {
                    None => None,
                    Some((generation, e2)) => if generation > u64::MAX {
                        None
                    } else {
                        let w2 = ws_run_end(s, e2);
                        if w2 == e2 {
                            None
                        } else if w2 < s.len() && s[w2] == 0x52 {
                            Some(
                                (
                                    ObjectIdentifier {
                                        number: num as u64,
                                        generation: generation as u64,
                                    },
                                    w2 + 1,
                                ),
                            )
                        } else {
                            None
                        }
                    },
                }
            }
        },
    }
}

/// The value at `i`: inside a content stream an indirect reference is
/// grammatically impossible, so a numeric literal is accepted at once;
/// outside one, the reference grammar is ruled out first, by lookahead.
pub open spec fn object_parse(s: Seq<u8>, i: int, in_content_stream: bool) -> Option<
    (Object, int),
> {
    if !in_content_stream && objref_parse(s, i) is Some {
        let (id, e) = objref_parse(s, i).unwrap();
        Some((Object::Ref(id), e))
    } else {
        match integer_parse(s, i) {
            Some((v, e)) => Some((Object::Int(v), e)),
            None => None,
        }
    }
}

/// Digit runs have nonnegative values.
proof fn lemma_digits_value_nonneg(s: Seq<u8>, i: int, j: int)
    requires
        i <= j,
        forall|m: int| i <= m < j ==> is_digit(#[trigger] s[m]),
    ensures
        0 <= digits_value(s, i, j),
    decreases j - i,
{
    if i < j {
        lemma_digits_value_nonneg(s, i, j - 1);
    }
}

/// Digit values accumulate without ever shrinking.
proof fn lemma_digits_value_mono(s: Seq<u8>, i: int, j: int, k: int)
    requires
        i <= j <= k,
        forall|m: int| i <= m < k ==> is_digit(#[trigger] s[m]),
    ensures
        digits_value(s, i, j) <= digits_value(s, i, k),
    decreases k - j,
{
    if j < k {
        lemma_digits_value_mono(s, i, j, k - 1);
        lemma_digits_value_nonneg(s, i, k - 1);
    }
}

/// Reads the unsigned integer token at the cursor, failing (and leaving
/// the offset unchanged) when no digit stands there or the value does not
/// fit the machine representation.
pub fn read_u64_digits(r: &mut Reader<'_>) -> (res: Option<u64>)
    requires
        old(r).wf(),
    ensures
        final(r).wf(),
        final(r).spec_data() == old(r).spec_data(),
        match uint_parse(old(r).spec_data(), old(r).spec_offset()) {
            Some((v, e)) => if v <= u64::MAX {
                res == Some(v as u64) && 0 <= v && final(r).spec_offset() == e
                    && old(r).spec_offset() <= e
            } else {
                res is None && final(r).spec_offset() == old(r).spec_offset()
            },
            None => res is None && final(r).spec_offset() == old(r).spec_offset(),
        },
{
    let ghost s = old(r).spec_data();
    let ghost start_g = old(r).spec_offset();
    let start: usize = r.offset();
    let mut acc: u64 = 0;
    proof {
        lemma_run_end(s, start_g, |b: u8| is_digit(b));
    }
    loop
        invariant
            r.wf(),
            r.spec_data() == s,
            s == old(r).spec_data(),
            start_g == old(r).spec_offset(),
            start_g <= r.spec_offset() <= digit_run_end(s, start_g),
            start_g == start,
            acc == digits_value(s, start_g, r.spec_offset()),
            start_g <= digit_run_end(s, start_g) <= s.len(),
            forall|m: int| start_g <= m < digit_run_end(s, start_g) ==> is_digit(#[trigger] s[m]),
            digit_run_end(s, start_g) < s.len() ==> !is_digit(s[digit_run_end(s, start_g)]),
        ensures
            r.wf(),
            r.spec_data() == s,
            s == old(r).spec_data(),
            start_g == old(r).spec_offset(),
            r.spec_offset() == digit_run_end(s, start_g),
            start_g == start,
            acc == digits_value(s, start_g, digit_run_end(s, start_g)),
        decreases s.len() - r.spec_offset(),
    {
        let b = match r.peek_byte() {
            Some(v) => v,
            None => {
                break ;
            },
        };
        if b < 0x30 || b > 0x39 {
            proof {
                if r.spec_offset() < digit_run_end(s, start_g) {
                    assert(is_digit(s[r.spec_offset()]));
                }
            }
            break ;
        }
        proof {
            if r.spec_offset() == digit_run_end(s, start_g) {
                assert(!is_digit(s[r.spec_offset()]));
            }
        }
        let d: u64 = (b - 0x30) as u64;
        if acc > 1844674407370955161 || (acc == 1844674407370955161 && d > 5) {
            proof {
                assert(digits_value(s, start_g, r.spec_offset() + 1) == acc * 10 + d);
                lemma_digits_value_mono(s, start_g, r.spec_offset() + 1, digit_run_end(s, start_g));
                match uint_parse(s, start_g) {
                    Some((v, e)) => {
                        assert(v > u64::MAX);
                    },
                    None => {},
                }
            }
            r.jump(start);
            return None;
        }
        acc = acc * 10 + d;
        r.forward();
    }
    if r.offset() == start {
        return None;
    }
    Some(acc)
}

/// Reads the integer object at the cursor; on any failure the offset is
/// left where it was.
pub fn read_integer_value(r: &mut Reader<'_>) -> (res: Option<i64>)
    requires
        old(r).wf(),
    ensures
        final(r).wf(),
        final(r).spec_data() == old(r).spec_data(),
        match integer_parse(old(r).spec_data(), old(r).spec_offset()) {
            Some((v, e)) => res == Some(v) && final(r).spec_offset() == e
                && old(r).spec_offset() <= e,
            None => res is None && final(r).spec_offset() == old(r).spec_offset(),
        },
{
    let start: usize = r.offset();
    let mut negative: bool = false;
    match r.peek_byte() {
        Some(b) => {
            if b == 0x2b || b == 0x2d {
                negative = b == 0x2d;
                r.forward();
            }
        },
        None => {},
    }
    let acc = match read_u64_digits(r) {
        Some(a) => a,
        None => {
            r.jump(start);
            return None;
        },
    };
    if negative {
        if acc > 9223372036854775808 {
            r.jump(start);
            return None;
        }
        if acc == 9223372036854775808 {
            Some(i64::MIN)
        } else {
            Some(-(acc as i64))
        }
    } else {
        if acc > 9223372036854775807 {
            r.jump(start);
            return None;
        }
        Some(acc as i64)
    }
}

/// Requires at least one whitespace byte at the cursor and absorbs the
/// whole run; fails without consuming anything otherwise.
fn require_white_space(r: &mut Reader<'_>) -> (res: Option<()>)
    requires
        old(r).wf(),
    ensures
        final(r).wf(),
        final(r).spec_data() == old(r).spec_data(),
        ({
            let s = old(r).spec_data();
            let i = old(r).spec_offset();
            ws_run_end(s, i) >= i && (if ws_run_end(s, i) > i {
                res is Some && final(r).spec_offset() == ws_run_end(s, i)
            } else {
                res is None && final(r).spec_offset() == i
            })
        }),
{
    proof {
        lemma_run_end(old(r).spec_data(), old(r).spec_offset(), |b: u8| is_white_space_spec(b));
    }
    let before: usize = r.offset();
    r.skip_white_spaces();
    if r.offset() == before {
        None
    } else {
        Some(())
    }
}

/// Reads the indirect-reference token at the cursor; on any failure —
/// even after consuming the two numbers — the offset is restored.
pub fn read_obj_ref(r: &mut Reader<'_>) -> (res: Option<ObjectIdentifier>)
    requires
        old(r).wf(),
    ensures
        final(r).wf(),
        final(r).spec_data() == old(r).spec_data(),
        match objref_parse(old(r).spec_data(), old(r).spec_offset()) {
            Some((id, e)) => res == Some(id) && final(r).spec_offset() == e
                && old(r).spec_offset() <= e,
            None => res is None && final(r).spec_offset() == old(r).spec_offset(),
        },
{
    let start: usize = r.offset();
    let number = match read_u64_digits(r) {
        Some(n) => n,
        None => {
            return None;
        },
    };
    if require_white_space(r).is_none() {
        r.jump(start);
        return None;
    }
    let generation = match read_u64_digits(r) {
        Some(g) => g,
        None => {
            r.jump(start);
            return None;
        },
    };
    if require_white_space(r).is_none() {
        r.jump(start);
        return None;
    }
    match r.peek_byte() {
        Some(b) => {
            if b != 0x52 {
                r.jump(start);
                return None;
            }
        },
        None => {
            r.jump(start);
            return None;
        },
    }
    r.forward();
    Some(ObjectIdentifier { number, generation })
}

impl<'a> Readable<'a> for Object {
    open spec fn spec_read(s: Seq<u8>, i: int, in_content_stream: bool) -> Option<(Object, int)> {
        object_parse(s, i, in_content_stream)
    }

    fn read(r: &mut Reader<'a>, ctx: &ReaderContext<'a>) -> (res: Option<Object>) {
        if !ctx.in_content_stream {
            match read_obj_ref(r) {
                Some(id) => {
                    return Some(Object::Ref(id));
                },
                None => {},
            }
        }
        match read_integer_value(r) {
            Some(v) => Some(Object::Int(v)),
            None => None,
        }
    }
}

impl Skippable for Object {
    open spec fn spec_skip(s: Seq<u8>, i: int, in_content_stream: bool) -> Option<int> {
        match object_parse(s, i, in_content_stream) {
            Some((_, e)) => Some(e),
            None => None,
        }
    }

    fn skip(r: &mut Reader<'_>, is_content_stream: bool) -> (res: Option<()>) {
        if !is_content_stream {
            match read_obj_ref(r) {
                Some(_) => {
                    return Some(());
                },
                None => {},
            }
        }
        match read_integer_value(r) {
            Some(_) => Some(()),
            None => None,
        }
    }
}

pub open spec fn is_delimiter(b: u8) -> bool {
    b == 0x28 || b == 0x29 || b == 0x3c || b == 0x3e || b == 0x5b || b == 0x5d || b == 0x7b
        || b == 0x7d || b == 0x2f || b == 0x25
}

/// A regular byte: neither whitespace nor a delimiter.
pub open spec fn is_regular(b: u8) -> bool {
    !is_white_space_spec(b) && !is_delimiter(b)
}

/// A content-stream operator token: a maximal run of one or more regular
/// bytes. Only its span is needed, for verbatim pass-through.
pub struct Operator;

impl Skippable for Operator {
    open spec fn spec_skip(s: Seq<u8>, i: int, in_content_stream: bool) -> Option<int> {
        let e = run_end(s, i, |b: u8| is_regular(b));
        if e > i {
            Some(e)
        } else {
            None
        }
    }

    fn skip(r: &mut Reader<'_>, is_content_stream: bool) -> (res: Option<()>) {
        let ghost start = r.spec_offset();
        let regular = |x: u8| -> (keep: bool)
            ensures
                keep == is_regular(x),
            {
                !(x == 0x00 || x == 0x09 || x == 0x0a || x == 0x0c || x == 0x0d || x == 0x20)
                    && !(x == 0x28 || x == 0x29 || x == 0x3c || x == 0x3e || x == 0x5b || x == 0x5d
                    || x == 0x7b || x == 0x7d || x == 0x2f || x == 0x25)
            };
        let res = r.forward_while_1(regular);
        proof {
            if res is Some {
                lemma_run_end_unique(r.spec_data(), start, r.spec_offset(), |b: u8| is_regular(b));
            } else {
                lemma_run_end_unique(r.spec_data(), start, start, |b: u8| is_regular(b));
            }
        }
        res
    }
}

/// The parse and span capabilities of a value share one grammar: a span is
/// sliced exactly where a materializing parse would end, and the two fail
/// on the same inputs.
pub proof fn lemma_parse_and_skip_agree(s: Seq<u8>, i: int, in_content_stream: bool)
    ensures
        match object_parse(s, i, in_content_stream) {
            Some((v, e)) => <Object as Skippable>::spec_skip(s, i, in_content_stream) == Some(e),
            None => <Object as Skippable>::spec_skip(s, i, in_content_stream) is None,
        },
{
}

/// Outside a content stream a token that the reference grammar matches is
/// one value, an indirect reference; inside one, the same bytes begin with
/// a plain number — the mode changes what a parse yields, not whether it
/// succeeds.
pub proof fn lemma_mode_difference(s: Seq<u8>, i: int)
    requires
        0 <= i <= s.len(),
        objref_parse(s, i) is Some,
        objref_parse(s, i).unwrap().0.number <= i64::MAX,
    ensures
        object_parse(s, i, false) == Some(
            (Object::Ref(objref_parse(s, i).unwrap().0), objref_parse(s, i).unwrap().1),
        ),
        object_parse(s, i, true) == Some(
            (
                Object::Int(objref_parse(s, i).unwrap().0.number as i64),
                digit_run_end(s, i),
            ),
        ),
{
    lemma_run_end(s, i, |b: u8| is_digit(b));
    let e = digit_run_end(s, i);
    assert(e > i);
    assert(is_digit(s[i]));
    assert(forall|m: int| i <= m < e ==> is_digit(#[trigger] s[m]));
    lemma_digits_value_nonneg(s, i, e);
    let v = digits_value(s, i, e);
    assert(uint_parse(s, i) == Some((v, e)));
    assert(v <= u64::MAX);
    assert(int_parse(s, i) == Some((v, e)));
    assert(integer_parse(s, i) == Some((v as i64, e)));
}

} // verus!
