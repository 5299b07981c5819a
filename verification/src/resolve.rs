//! Cycle-safe resolution of indirect references: an identifier is looked up
//! through the cross-reference resolver, checked against the chain of
//! ancestors being resolved, and the object at its location is parsed with
//! a context that carries the extended chain — so a document whose objects
//! reference themselves, directly or transitively, fails cleanly instead of
//! recursing forever.

use vstd::prelude::*;
use crate::chain::{chain_clone, chain_get, chain_len, chain_push, chain_view, AncestorChain};
use crate::object::{object_parse, Object, ObjectIdentifier};
use crate::reader::{Reader, ReaderContext};
use crate::xref::XRef;

verus! {

/// Why a resolution failed.
#[derive(Clone, Copy, PartialEq, Eq, Structural, Debug)]
pub enum ResolveError {
    /// The reference chain revisits an ancestor, or nests past the depth
    /// bound that turns pathological input into a clean failure.
    Cycle,
    /// The cross-reference resolver knows no location for the identifier.
    UnresolvedReference,
    /// The bytes at the located position do not parse as an object.
    Malformed,
}

/// The most deeply nested resolution allowed. Abnormally deep reference
/// nesting is a malformed-input condition, not a stack-overflow risk: the
/// depth is checked explicitly rather than left to the host's call stack.
pub const MAX_RESOLVE_DEPTH: usize = 32;

pub open spec fn chain_contains(chain: Seq<(u64, u64)>, id: ObjectIdentifier) -> bool {
    exists|k: int| 0 <= k < chain.len() && chain[k] == (id.number, id.generation)
}

pub open spec fn spec_locate(xref: Option<&XRef>, id: ObjectIdentifier) -> Option<usize> {
    match xref {
        Some(x) => x.locate_spec(id),
        None => None,
    }
}

/// What resolving `id` under `chain` yields: the first non-reference object
/// reached by following references from `id`, or the failure that stops
/// the walk — an unknown identifier, a revisited ancestor or exhausted
/// depth, or bytes that do not parse.
pub open spec fn resolve_spec(
    data: Seq<u8>,
    xref: Option<&XRef>,
    id: ObjectIdentifier,
    chain: Seq<(u64, u64)>,
) -> Result<Object, ResolveError>
    decreases MAX_RESOLVE_DEPTH - chain.len(),
{
    match spec_locate(xref, id) {
        None => Err(ResolveError::UnresolvedReference),
        Some(loc) => {
            if chain_contains(chain, id) {
                Err(ResolveError::Cycle)
            } else if chain.len() >= MAX_RESOLVE_DEPTH {
                Err(ResolveError::Cycle)
            } else if loc > data.len() {
                Err(ResolveError::Malformed)
            } else {
                match object_parse(data, loc as int, false) {
                    None => Err(ResolveError::Malformed),
                    Some((Object::Int(v), _)) => Ok(Object::Int(v)),
                    Some((Object::Ref(id2), _)) => resolve_spec(
                        data,
                        xref,
                        id2,
                        chain.push((id.number, id.generation)),
                    ),
                }
            }
        },
    }
}

/// Whether the ancestor chain already holds `id`.
fn chain_contains_exec(chain: &AncestorChain, id: ObjectIdentifier) -> (r: bool)
    ensures
        r == chain_contains(chain_view(*chain), id),
{
    let n = chain_len(chain);
    let mut k: usize = 0;
    while k < n
        invariant
            n == chain_view(*chain).len(),
            k <= n,
            forall|m: int|
                0 <= m < k ==> chain_view(*chain)[m] != (id.number, id.generation),
        decreases n - k,
    {
        let item = chain_get(chain, k);
        if item.0 == id.number && item.1 == id.generation {
            proof {
                assert(chain_view(*chain)[k as int] == (id.number, id.generation));
            }
            return true;
        }
        k = k + 1;
    }
    false
}

/// Resolves the identifier an indirect reference names into the object it
/// denotes, following reference-to-reference chains but rejecting any that
/// revisit an ancestor or nest past [`MAX_RESOLVE_DEPTH`]. No failure is
/// substituted with a default value here: policy belongs to the layer
/// above.
pub fn resolve_ref<'a>(
    data: &'a [u8],
    id: ObjectIdentifier,
    ctx: &ReaderContext<'a>,
) -> (res: Result<Object, ResolveError>)
    ensures
        res == resolve_spec(data@, ctx.xref, id, ctx.spec_chain()),
    decreases MAX_RESOLVE_DEPTH - chain_view(ctx.parent_chain).len(),
{
    let x = match ctx.xref {
        Some(x) => x,
        None => {
            return Err(ResolveError::UnresolvedReference);
        },
    };
    let loc = match x.locate(id) {
        Some(l) => l,
        None => {
            return Err(ResolveError::UnresolvedReference);
        },
    };
    if chain_contains_exec(&ctx.parent_chain, id) {
        return Err(ResolveError::Cycle);
    }
    if chain_len(&ctx.parent_chain) >= MAX_RESOLVE_DEPTH {
        return Err(ResolveError::Cycle);
    }
    if loc > data.len() {
        return Err(ResolveError::Malformed);
    }
    let mut extended = chain_clone(&ctx.parent_chain);
    chain_push(&mut extended, (id.number, id.generation));
    let deeper = ReaderContext {
        xref: ctx.xref,
        in_content_stream: false,
        obj_number: Some(id),
        parent_chain: extended,
    };
    let mut r = Reader::new_with(data, loc);
    match r.read::<Object>(&deeper) {
        None => Err(ResolveError::Malformed),
        Some(Object::Int(v)) => Ok(Object::Int(v)),
        Some(Object::Ref(id2)) => resolve_ref(data, id2, &deeper),
    }
}

/// Any identifier that the resolver can locate but that already stands on
/// the ancestor chain — and any chain already at the depth bound — is
/// rejected as a cycle, whatever the bytes hold.
pub proof fn lemma_cycle_rejected(
    data: Seq<u8>,
    xref: Option<&XRef>,
    id: ObjectIdentifier,
    chain: Seq<(u64, u64)>,
)
    requires
        spec_locate(xref, id) is Some,
        chain_contains(chain, id) || chain.len() >= MAX_RESOLVE_DEPTH,
    ensures
        resolve_spec(data, xref, id, chain) == Err::<Object, ResolveError>(ResolveError::Cycle),
{
}

} // verus!
