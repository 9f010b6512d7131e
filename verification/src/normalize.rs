//! The canonical form under which card names are compared: lower case, with
//! a fixed table of accented and typographic characters replaced by plain
//! ones.

use crate::text::chars_of;
use vstd::prelude::*;

verus! {

/// What `str::to_lowercase` makes of a text. The mapping follows the Unicode
/// case tables, which are not written out here.
pub uninterp spec fn lowercase_of(s: Seq<char>) -> Seq<char>;

/// `str::to_lowercase`: the lower-case equivalent of `s` as a new string. It
/// depends on no locale, so the same text always gives the same result.
#[verifier::external_body]
fn str_to_lowercase(s: &str) -> (lowered: String)
    ensures
        lowered@ == lowercase_of(s@),
{
    s.to_lowercase()
}

/// What one character is replaced by. The table is literal: each entry
/// repairs one known artifact of the card data, and it is no general removal
/// of accents. Characters outside the table stay as they are.
pub open spec fn folded_char(c: char) -> Seq<char> {
    if c == '\u{fa}' {
        seq!['u']  // u with acute
    } else if c == '\u{2019}' {
        seq!['\'']  // right single quotation mark
    } else if c == '\u{ed}' {
        seq!['i']  // i with acute
    } else if c == '\u{fb}' {
        seq!['u']  // u with circumflex
    } else if c == '\u{ee}' {
        seq!['i']  // i with circumflex
    } else if c == '\u{f3}' {
        seq!['o']  // o with acute
    } else if c == '\u{e9}' {
        seq!['e']  // e with acute
    } else if c == '\u{e2}' {
        seq!['a']  // a with circumflex
    } else if c == '\u{201c}' {
        seq![]  // left double quotation mark
    } else if c == '\u{eb}' {
        seq!['e']  // e with diaeresis
    } else if c == '\u{201d}' {
        seq![]  // right double quotation mark
    } else if c == '\u{e1}' {
        seq!['a']  // a with acute
    } else if c == '\u{a0}' {
        seq!['e', 'o']  // no-break space
    } else if c == '\u{e4}' {
        seq!['a']  // a with diaeresis
    } else if c == '\u{301}' {
        seq![]  // combining acute accent
    } else if c == '\u{f6}' {
        seq!['o']  // o with diaeresis
    } else if c == '\u{302}' {
        seq!['u']  // combining circumflex accent
    } else {
        seq![c]
    }
}

/// `s` with every character replaced as the table says.
pub open spec fn folded(s: Seq<char>) -> Seq<char>
    decreases s.len(),
{
    if s.len() == 0 {
        Seq::empty()
    } else {
        folded(s.drop_last()) + folded_char(s.last())
    }
}

/// The canonical form of `raw`: lower case first, then the table.
pub open spec fn normalized(raw: Seq<char>) -> Seq<char> {
    folded(lowercase_of(raw))
}

/// Folding works piece by piece.
pub proof fn lemma_folded_concat(a: Seq<char>, b: Seq<char>)
    ensures
        folded(a + b) == folded(a) + folded(b),
    decreases b.len(),
{
    if b.len() > 0 {
        lemma_folded_concat(a, b.drop_last());
        assert((a + b).drop_last() =~= a + b.drop_last());
    }
}

/// Folding a single character looks it up in the table.
pub proof fn lemma_folded_one(c: char)
    ensures
        folded(seq![c]) == folded_char(c),
{
    reveal_with_fuel(folded, 2);
}

/// What the table puts in place of a character is left alone by the table.
pub proof fn lemma_folded_char_is_plain(c: char)
    ensures
        folded(folded_char(c)) == folded_char(c),
{
    let out = folded_char(c);
    if out.len() == 1 {
        lemma_folded_one(out[0]);
    } else if out.len() == 2 {
        assert(out =~= seq!['e'] + seq!['o']);
        lemma_folded_concat(seq!['e'], seq!['o']);
        lemma_folded_one('e');
        lemma_folded_one('o');
    }
}

/// Folding twice gives what folding once gives.
pub proof fn lemma_fold_is_idempotent(s: Seq<char>)
    ensures
        folded(folded(s)) == folded(s),
    decreases s.len(),
{
    if s.len() > 0 {
        lemma_fold_is_idempotent(s.drop_last());
        lemma_folded_char_is_plain(s.last());
        lemma_folded_concat(folded(s.drop_last()), folded_char(s.last()));
    }
}

/// Normalizing twice gives what normalizing once gives, for every text whose
/// canonical form lower-casing leaves as it is.
pub proof fn lemma_normalize_is_idempotent(raw: Seq<char>)
    ensures
        lowercase_of(normalized(raw)) == normalized(raw) ==> normalized(normalized(raw))
            == normalized(raw),
{
    lemma_fold_is_idempotent(lowercase_of(raw));
}

/// Appends to `out` what the table puts in place of `c`.
fn push_folded(out: &mut String, c: char)
    ensures
        final(out)@ == old(out)@ + folded_char(c),
{
    if c == '\u{fa}' || c == '\u{fb}' || c == '\u{302}' {
        out.push('u');
    } else if c == '\u{2019}' {
        out.push('\'');
    } else if c == '\u{ed}' || c == '\u{ee}' {
        out.push('i');
    } else if c == '\u{f3}' || c == '\u{f6}' {
        out.push('o');
    } else if c == '\u{e9}' || c == '\u{eb}' {
        out.push('e');
    } else if c == '\u{e2}' || c == '\u{e1}' || c == '\u{e4}' {
        out.push('a');
    } else if c == '\u{201c}' || c == '\u{201d}' || c == '\u{301}' {
    } else if c == '\u{a0}' {
        out.push('e');
        out.push('o');
    } else {
        out.push(c);
    }
}

/// Replaces the accented and typographic characters of a lower-cased text
/// as the table says.
pub fn fold_accents(lowered: &str) -> (plain: String)
    ensures
        plain@ == folded(lowered@),
{
    let chars = chars_of(lowered);
    let mut plain = String::new();
    let mut i: usize = 0;
    while i < chars.len()
        invariant
            i <= chars.len(),
            plain@ == folded(chars@.take(i as int)),
        decreases chars.len() - i,
    {
        assert(chars@.take(i + 1).drop_last() =~= chars@.take(i as int));
        push_folded(&mut plain, chars[i]);
        i += 1;
    }
    assert(chars@.take(i as int) =~= chars@);
    plain
}

/// The canonical form of `raw` for comparison: lower case, then the
/// replacements of the table. It never fails.
pub fn normalize(raw: &str) -> (key: String)
    ensures
        key@ == normalized(raw@),
{
    let lowered = str_to_lowercase(raw);
    fold_accents(lowered.as_str())
}

} // verus!
