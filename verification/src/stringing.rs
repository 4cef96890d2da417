//! Splitting a string at the last occurrence of a character.
use vstd::prelude::*;

use crate::text::to_chars;

verus! {

/// `i` is the last position of `c` in `s`.
pub open spec fn is_last_index(s: Seq<char>, c: char, i: int) -> bool {
    &&& 0 <= i < s.len()
    &&& s[i] == c
    &&& forall|j: int| i < j < s.len() ==> s[j] != c
}

/// Extra operations on string slices.
pub trait StringExt: View<V = Seq<char>> {
    /// Splits at the last occurrence of `c`: the part before it and the part
    /// after it, or nothing where `c` does not occur.
    fn split_last<'s>(&'s self, c: char) -> (r: Option<(&'s str, &'s str)>)
        ensures
            match r {
                None => !self@.contains(c),
                Some((front, back)) => {
                    &&& is_last_index(self@, c, front@.len() as int)
                    &&& front@ == self@.take(front@.len() as int)
                    &&& back@ == self@.skip(front@.len() as int + 1)
                    &&& front@ + seq![c] + back@ == self@
                },
            },
    ;
}

impl StringExt for str {
    fn split_last<'s>(&'s self, c: char) -> (r: Option<(&'s str, &'s str)>) {
        let chars = to_chars(self);
        let mut i: usize = chars.len();
        while i > 0
            invariant
                i <= chars.len(),
                chars@ == self@,
                forall|j: int| i <= j < chars.len() ==> chars@[j] != c,
            decreases i,
        {
            if chars[i - 1] == c {
                let last = i - 1;
                let front = self.substring_char(0, last);
                let back = self.substring_char(last + 1, chars.len());
                assert(self@.subrange(0, last as int) =~= self@.take(last as int));
                assert(self@.subrange(last + 1, chars.len() as int) =~= self@.skip(last + 1));
                assert(self@.take(last as int) + seq![c] + self@.skip(last + 1) =~= self@);
                return Some((front, back));
            }
            i -= 1;
        }
        assert forall|j: int| 0 <= j < self@.len() implies self@[j] != c by {}
        None
    }
}

} // verus!
