//! Turning `PascalCase` type names into `snake_case` symbol parts.
use vstd::prelude::*;

use crate::text::{
    char_is_uppercase, char_to_lowercase, spec_is_uppercase, spec_to_lowercase, string_push,
    to_chars,
};

verus! {
// ----------------------------------------------------------------------
// Names
// ----------------------------------------------------------------------

/// `PascalCase` to `snake_case`: every uppercase character is replaced by its
/// lowercase mapping, preceded by an underscore unless nothing has been
/// written yet.
pub open spec fn snake_case(p: Seq<char>) -> Seq<char>
    decreases p.len(),
{
    if p.len() == 0 {
        Seq::empty()
    } else {
        let prev = snake_case(p.drop_last());
        let c = p.last();
        if spec_is_uppercase(c) {
            (if prev.len() > 0 {
                prev.push('_')
            } else {
                prev
            }) + spec_to_lowercase(c)
        } else {
            prev.push(c)
        }
    }
}

/// Converts a `PascalCase` name to `snake_case`.
pub fn pascal_to_snake_case(pascal: &str) -> (r: String)
    ensures
        r@ == snake_case(pascal@),
{
    let chars = to_chars(pascal);
    let mut ret = String::new();
    let mut i: usize = 0;
    while i < chars.len()
        invariant
            i <= chars.len(),
            chars@ == pascal@,
            ret@ == snake_case(chars@.take(i as int)),
        decreases chars.len() - i,
    {
        let c = chars[i];
        assert(chars@.take(i + 1).drop_last() =~= chars@.take(i as int));
        assert(chars@.take(i + 1).last() == c);
        if char_is_uppercase(c) {
            let lower = char_to_lowercase(c);
            if !ret.as_str().is_empty() {
                string_push(&mut ret, '_');
            }
            let ghost base = ret@;
            let mut j: usize = 0;
            while j < lower.len()
                invariant
                    j <= lower.len(),
                    ret@ == base + lower@.take(j as int),
                decreases lower.len() - j,
            {
                string_push(&mut ret, lower[j]);
                assert(lower@.take(j + 1) =~= lower@.take(j as int).push(lower@[j as int]));
                j += 1;
            }
            assert(lower@.take(lower.len() as int) =~= lower@);
        } else {
            string_push(&mut ret, c);
        }
        i += 1;
    }
    assert(chars@.take(chars.len() as int) =~= chars@);
    ret
}



/// A name without uppercase characters is its own snake case.
pub proof fn lemma_snake_case_of_lowercase(p: Seq<char>)
    requires
        forall|i: int| 0 <= i < p.len() ==> !spec_is_uppercase(#[trigger] p[i]),
    ensures
        snake_case(p) == p,
    decreases p.len(),
{
    if p.len() > 0 {
        lemma_snake_case_of_lowercase(p.drop_last());
        assert(!spec_is_uppercase(p[p.len() - 1]));
        assert(p.drop_last().push(p.last()) =~= p);
    }
}

} // verus!
