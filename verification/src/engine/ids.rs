//! Run ids.
use vstd::prelude::*;

verus! {

/// Whether `c` is a hexadecimal digit in lower case.
pub open spec fn is_hex(c: char) -> bool {
    '0' <= c <= '9' || 'a' <= c <= 'f'
}

/// Whether a text has the form of a random id: hexadecimal digits in five groups
/// with hyphens between them, version 4, variant 1.
pub open spec fn is_id(text: Seq<char>) -> bool {
    &&& text.len() == 36
    &&& forall|i: int|
        0 <= i < 36 ==> if i == 8 || i == 13 || i == 18 || i == 23 {
            #[trigger] text[i] == '-'
        } else {
            is_hex(text[i])
        }
    &&& text[14] == '4'
    &&& text[19] == '8' || text[19] == '9' || text[19] == 'a' || text[19] == 'b'
}

/// A new run id.
///
/// Calls `uuid::Uuid::new_v4` and writes the id with its `to_string`. The bits of
/// the version and of the variant are fixed; the others are left to chance, and
/// nothing is claimed of them. A system without a source of randomness makes it
/// panic.
#[verifier::external_body]
pub(crate) fn fresh_id() -> (id: String)
    ensures
        is_id(id@),
{
    uuid::Uuid::new_v4().to_string()
}

/// That many new run ids.
pub fn fresh_ids(count: usize) -> (ids: Vec<String>)
    ensures
        ids@.len() == count,
        forall|i: int| 0 <= i < count ==> is_id((#[trigger] ids@[i])@),
{
    let mut ids: Vec<String> = Vec::new();
    while ids.len() < count
        invariant
            ids@.len() <= count,
            forall|i: int| 0 <= i < ids@.len() ==> is_id((#[trigger] ids@[i])@),
        decreases count - ids@.len(),
    {
        ids.push(fresh_id());
    }
    ids
}

} // verus!
