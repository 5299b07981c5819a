use hayro_syntax::object::{Object, ObjectIdentifier};
use hayro_syntax::reader::ReaderContext;
use hayro_syntax::resolve::{resolve_ref, ResolveError, MAX_RESOLVE_DEPTH};
use hayro_syntax::xref::XRef;

fn id(number: u64) -> ObjectIdentifier {
    ObjectIdentifier { number, generation: 0 }
}

#[test]
fn a_direct_object_resolves() {
    let data = b"42";
    let mut xref = XRef::new();
    xref.add(id(1), 0);
    let ctx = ReaderContext::new(&xref, false);
    assert_eq!(resolve_ref(data, id(1), &ctx), Ok(Object::Int(42)));
}

#[test]
fn a_reference_chain_resolves_to_the_final_object() {
    // object 1 at 0 is `2 0 R`, object 2 at 6 is `3 0 R`, object 3 at 12 is `-9`.
    let data = b"2 0 R 3 0 R -9";
    let mut xref = XRef::new();
    xref.add(id(1), 0);
    xref.add(id(2), 6);
    xref.add(id(3), 12);
    let ctx = ReaderContext::new(&xref, false);
    assert_eq!(resolve_ref(data, id(1), &ctx), Ok(Object::Int(-9)));
}

#[test]
fn unknown_identifiers_are_unresolved() {
    let data = b"42";
    let xref = XRef::new();
    let ctx = ReaderContext::new(&xref, false);
    assert_eq!(
        resolve_ref(data, id(1), &ctx),
        Err(ResolveError::UnresolvedReference)
    );

    let detached = ReaderContext::dummy();
    assert_eq!(
        resolve_ref(data, id(1), &detached),
        Err(ResolveError::UnresolvedReference)
    );
}

#[test]
fn self_reference_is_a_cycle() {
    // chain of length one: object 1 resolves through itself.
    let data = b"1 0 R";
    let mut xref = XRef::new();
    xref.add(id(1), 0);
    let ctx = ReaderContext::new(&xref, false);
    assert_eq!(resolve_ref(data, id(1), &ctx), Err(ResolveError::Cycle));
}

#[test]
fn mutual_references_are_a_cycle() {
    // chain of length two: object 1 references object 2, which references 1.
    let data = b"2 0 R 1 0 R";
    let mut xref = XRef::new();
    xref.add(id(1), 0);
    xref.add(id(2), 6);
    let ctx = ReaderContext::new(&xref, false);
    assert_eq!(resolve_ref(data, id(1), &ctx), Err(ResolveError::Cycle));
    assert_eq!(resolve_ref(data, id(2), &ctx), Err(ResolveError::Cycle));
}

#[test]
fn nesting_past_the_depth_bound_is_a_cycle() {
    // a reference ring one longer than the configured maximum: the walk
    // exhausts its depth before it meets a repeated identifier.
    let count = MAX_RESOLVE_DEPTH as u64 + 1;
    let mut data: Vec<u8> = Vec::new();
    let mut xref = XRef::new();
    for n in 1..=count {
        let next = if n == count { 1 } else { n + 1 };
        xref.add(id(n), data.len());
        data.extend_from_slice(format!("{} 0 R ", next).as_bytes());
    }
    let ctx = ReaderContext::new(&xref, false);
    assert_eq!(resolve_ref(&data, id(1), &ctx), Err(ResolveError::Cycle));
}

#[test]
fn bytes_that_do_not_parse_are_malformed() {
    let data = b"zz";
    let mut xref = XRef::new();
    xref.add(id(1), 0);
    xref.add(id(2), 100);
    let ctx = ReaderContext::new(&xref, false);
    assert_eq!(resolve_ref(data, id(1), &ctx), Err(ResolveError::Malformed));
    assert_eq!(resolve_ref(data, id(2), &ctx), Err(ResolveError::Malformed));
}

#[test]
fn xref_locates_by_number_and_generation() {
    let mut xref = XRef::new();
    xref.add(ObjectIdentifier { number: 7, generation: 1 }, 10);
    xref.add(ObjectIdentifier { number: 7, generation: 2 }, 20);
    assert_eq!(xref.locate(ObjectIdentifier { number: 7, generation: 2 }), Some(20));
    assert_eq!(xref.locate(ObjectIdentifier { number: 7, generation: 1 }), Some(10));
    assert_eq!(xref.locate(ObjectIdentifier { number: 8, generation: 1 }), None);
    assert_eq!(XRef::dummy().locate(id(7)), None);
}
