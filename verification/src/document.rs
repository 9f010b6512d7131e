//! The one step that comes before a set document is decoded: leaving out
//! its first line, which holds the declaration.

use crate::text::chars_of;
use vstd::prelude::*;
use vstd::string::*;

verus! {

/// `s` from its first line break on, the break included; nothing if `s` has
/// no line break.
pub open spec fn from_first_break(s: Seq<char>) -> Option<Seq<char>>
    decreases s.len(),
{
    if s.len() == 0 {
        None
    } else if s[0] == '\n' {
        Some(s)
    } else {
        from_first_break(s.skip(1))
    }
}

/// Text without a line break before `i` starts its rest where its tail from
/// `i` does.
pub proof fn lemma_break_not_before(s: Seq<char>, i: int)
    requires
        0 <= i <= s.len(),
        forall|j: int| 0 <= j < i ==> s[j] != '\n',
    ensures
        from_first_break(s) == from_first_break(s.skip(i)),
    decreases i,
{
    if i == 0 {
        assert(s.skip(0) =~= s);
    } else {
        let tail = s.skip(1);
        lemma_break_not_before(tail, i - 1);
        assert(tail.skip(i - 1) =~= s.skip(i));
    }
}

/// The part of a set document that is decoded: everything from the first
/// line break on, so that the declaration in the first line is left out. A
/// document of a single line has no such part.
pub fn document_body(document: &str) -> (body: Option<&str>)
    ensures
        match body {
            Some(rest) => from_first_break(document@) == Some(rest@),
            None => from_first_break(document@) is None,
        },
{
    let chars = chars_of(document);
    let mut i: usize = 0;
    while i < chars.len()
        invariant
            i <= chars.len(),
            chars@ == document@,
            forall|j: int| 0 <= j < i ==> chars[j] != '\n',
        decreases chars.len() - i,
    {
        if chars[i] == '\n' {
            proof {
                lemma_break_not_before(document@, i as int);
            }
            return Some(document.substring_char(i, chars.len()));
        }
        i += 1;
    }
    proof {
        lemma_break_not_before(document@, i as int);
    }
    None
}

} // verus!
