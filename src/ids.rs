use vstd::prelude::*;
use vstd::string::StringExecFns;

verus! {

/// Relies on uuid::Uuid::new_v4 and its hyphenated text form: a random id of 36
/// characters.
#[verifier::external_body]
fn new_id() -> (r: String)
    ensures
        r@.len() == 36,
{
    uuid::Uuid::new_v4().to_string()
}

/// Whether `id` is one of `taken`.
pub open spec fn is_taken(taken: Seq<String>, id: Seq<char>) -> bool {
    exists|i: int| 0 <= i < taken.len() && (#[trigger] taken[i])@ == id
}

/// A random id that is none of `taken`. Where the random id is taken already, it is
/// lengthened past every taken id.
pub(crate) fn fresh_id(taken: &Vec<String>) -> (r: String)
    ensures
        !is_taken(taken@, r@),
        r@.len() >= 36,
{
    let id = new_id();
    let mut j: usize = 0;
    while j < taken.len()
        invariant
            0 <= j <= taken@.len(),
            id@.len() == 36,
            forall|i: int| 0 <= i < j ==> taken@[i]@ != id@,
        decreases taken.len() - j,
    {
        if taken[j] == id {
            proof {
                reveal_strlit("-");
            }
            let mut longer = id.concat("-");
            let mut k: usize = 0;
            while k < taken.len()
                invariant
                    0 <= k <= taken@.len(),
                    longer@.len() >= 37,
                    forall|i: int| 0 <= i < k ==> taken@[i]@.len() < longer@.len(),
                decreases taken.len() - k,
            {
                longer.append(taken[k].as_str());
                k = k + 1;
            }
            return longer;
        }
        j = j + 1;
    }
    id
}

} // verus!
