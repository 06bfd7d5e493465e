//! What the other parts of a document hand over for assembly: finished
//! fragments, each with the reference of its root.
use vstd::prelude::*;
use pdf_writer::Chunk;
use crate::reference::Ref;

verus! {

/// The outline of a document, as a finished fragment.
pub struct Outline {
    /// The reference of the root of the outline.
    pub root: Ref,
    /// The objects of the outline.
    pub chunk: Chunk,
}

/// The structure tree of a document, as finished fragments.
pub struct TagTree {
    /// The reference of the root of the tree.
    pub root: Ref,
    /// The root of the tree.
    pub chunk: Chunk,
    /// The elements of the tree.
    pub elements: Vec<Chunk>,
}

/// A file that is embedded in a document, as a finished fragment.
pub struct EmbeddedFile {
    /// The name under which the file is embedded.
    pub path: String,
    /// The reference of the file specification.
    pub root: Ref,
    /// The file specification and the stream of the file.
    pub chunk: Chunk,
}

/// A place in a document that has a name, as a finished fragment.
pub struct NamedDestination {
    /// The name of the destination.
    pub name: String,
    /// The reference of the destination.
    pub root: Ref,
    /// The destination.
    pub chunk: Chunk,
}

/// Whether the bytes `a` come before the bytes `b` in the order of a
/// dictionary: at the first place where they differ, `a` has the smaller
/// byte, or `a` ends there and `b` goes on.
pub open spec fn lex_less(a: Seq<u8>, b: Seq<u8>) -> bool
    decreases a.len(),
{
    if b.len() == 0 {
        false
    } else if a.len() == 0 {
        true
    } else if a[0] != b[0] {
        a[0] < b[0]
    } else {
        lex_less(a.skip(1), b.skip(1))
    }
}

/// Of two byte sequences that differ, one comes before the other.
pub proof fn lemma_lex_total(a: Seq<u8>, b: Seq<u8>)
    requires
        a != b,
    ensures
        lex_less(a, b) || lex_less(b, a),
    decreases a.len(),
{
    if a.len() > 0 && b.len() > 0 && a[0] == b[0] {
        if a.skip(1) == b.skip(1) {
            assert(a =~= seq![a[0]] + a.skip(1));
            assert(b =~= seq![b[0]] + b.skip(1));
        }
        lemma_lex_total(a.skip(1), b.skip(1));
    } else if a.len() == 0 && b.len() == 0 {
        assert(a =~= b);
    }
}

/// What comes before a byte sequence comes before all that it comes before.
pub proof fn lemma_lex_chain(a: Seq<u8>, b: Seq<u8>, c: Seq<u8>)
    requires
        lex_less(a, b),
        lex_less(b, c),
    ensures
        lex_less(a, c),
    decreases a.len(),
{
    if a.len() > 0 && b.len() > 0 && c.len() > 0 && a[0] == b[0] && b[0] == c[0] {
        lemma_lex_chain(a.skip(1), b.skip(1), c.skip(1));
    }
}

/// Whether the bytes `a` come before the bytes `b` in the order of a dictionary.
pub fn bytes_less(a: &[u8], b: &[u8]) -> (less: bool)
    ensures
        less == lex_less(a@, b@),
{
    let mut i: usize = 0;
    assert(a@.skip(0) =~= a@ && b@.skip(0) =~= b@);
    while i < a.len() && i < b.len()
        invariant
            i <= a@.len(),
            i <= b@.len(),
            lex_less(a@, b@) == lex_less(a@.skip(i as int), b@.skip(i as int)),
        decreases a@.len() - i,
    {
        if a[i] != b[i] {
            return a[i] < b[i];
        }
        assert(a@.skip(i as int).skip(1) =~= a@.skip(i + 1));
        assert(b@.skip(i as int).skip(1) =~= b@.skip(i + 1));
        i += 1;
    }
    i < b.len()
}

} // verus!
