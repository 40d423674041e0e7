//! Properties that relate the constructors, the text form and the parsers
//! of problem ids.
use vstd::prelude::*;
use vstd::string::StringSliceAdditionalSpecFns;

use crate::decimal::{
    int_cmp, lemma_lex_cmp_numerals, lemma_six_digits_round_trip, lex_cmp, zero_padded,
};
use crate::problem::{
    ascii_text, language_of_id, localized_bytes, number_of_id, numeric_part, parsed_localized,
    parsed_unlocalized, type_of_id, unlocalized_bytes, ProblemLanguage, ProblemType,
};

verus! {

/// A string whose characters are the ASCII bytes `b` is encoded as `b`.
pub proof fn lemma_ascii_text_bytes(s: &str, b: Seq<u8>)
    requires
        forall|i: int| 0 <= i < b.len() ==> #[trigger] b[i] < 128,
        s@ == ascii_text(b),
    ensures
        s.spec_bytes() == b,
{
    broadcast use vstd::string::is_ascii_spec_bytes;

    assert(vstd::string::is_ascii(s)) by {
        assert forall|i: int| 0 <= i < s@.len() implies '\0' <= #[trigger] s@[i] <= '\u{7f}' by {
            assert(b[i] < 128);
        }
    }
    assert(s.spec_bytes() =~= b);
}

/// The text of an unlocalized id holds only ASCII bytes, and the type and
/// numeric id read back from it are those it was made from.
pub proof fn lemma_unlocalized_bytes(pt: ProblemType, n: nat)
    requires
        n < 1_000_000,
    ensures
        unlocalized_bytes(pt, n).len() == 7,
        forall|i: int| 0 <= i < 7 ==> #[trigger] unlocalized_bytes(pt, n)[i] < 128,
        unlocalized_bytes(pt, n).subrange(1, 7) == zero_padded(n, 6),
        type_of_id(unlocalized_bytes(pt, n)) == pt,
        number_of_id(unlocalized_bytes(pt, n)) == n,
        numeric_part(unlocalized_bytes(pt, n)) == Some(n),
{
    let b = unlocalized_bytes(pt, n);
    lemma_six_digits_round_trip(n);
    assert(b.subrange(1, 7) =~= zero_padded(n, 6));
    assert forall|i: int| 0 <= i < 7 implies #[trigger] b[i] < 128 by {
        if i > 0 {
            assert(b[i] == zero_padded(n, 6)[i - 1]);
        }
    }
}

/// Parsing the text of a new unlocalized id gives back that id: the same
/// text, with the type and the numeric id that it was made from.
pub proof fn lemma_unlocalized_round_trip(pt: ProblemType, n: nat, s: &str)
    requires
        n < 1_000_000,
        s@ == ascii_text(unlocalized_bytes(pt, n)),
    ensures
        s.spec_bytes() == unlocalized_bytes(pt, n),
        parsed_unlocalized(s.spec_bytes()) == Some(unlocalized_bytes(pt, n)),
        type_of_id(unlocalized_bytes(pt, n)) == pt,
        number_of_id(unlocalized_bytes(pt, n)) == n,
{
    lemma_unlocalized_bytes(pt, n);
    lemma_ascii_text_bytes(s, unlocalized_bytes(pt, n));
}

/// Parsing the text of a new localized id gives back that id: the same
/// text, with the type, the numeric id and the language that it was made
/// from.
pub proof fn lemma_localized_round_trip(pt: ProblemType, n: nat, lang: ProblemLanguage, s: &str)
    requires
        n < 1_000_000,
        s@ == ascii_text(localized_bytes(pt, n, lang)),
    ensures
        s.spec_bytes() == localized_bytes(pt, n, lang),
        parsed_localized(s.spec_bytes()) == Some(localized_bytes(pt, n, lang)),
        type_of_id(localized_bytes(pt, n, lang)) == pt,
        number_of_id(localized_bytes(pt, n, lang)) == n,
        language_of_id(localized_bytes(pt, n, lang)) == lang,
{
    let u = unlocalized_bytes(pt, n);
    let b = localized_bytes(pt, n, lang);
    lemma_unlocalized_bytes(pt, n);
    assert(b.subrange(1, 7) =~= u.subrange(1, 7));
    assert(b.subrange(8, 10) =~= lang.spec_code());
    assert(b[0] == u[0]);
    assert forall|i: int| 0 <= i < b.len() implies #[trigger] b[i] < 128 by {
        if i < 7 {
            assert(b[i] == u[i]);
        } else if i >= 8 {
            assert(b[i] == b.subrange(8, 10)[i - 8]);
        }
    }
    lemma_ascii_text_bytes(s, b);
}

/// Unlocalized ids of one type sort as their numeric ids do, and
/// unlocalized ids of different types sort as their type letters do.
pub proof fn lemma_unlocalized_order(pt1: ProblemType, n1: nat, pt2: ProblemType, n2: nat)
    requires
        n1 < 1_000_000,
        n2 < 1_000_000,
    ensures
        pt1 == pt2 ==> lex_cmp(unlocalized_bytes(pt1, n1), unlocalized_bytes(pt2, n2))
            == int_cmp(n1 as int, n2 as int),
        pt1 != pt2 ==> lex_cmp(unlocalized_bytes(pt1, n1), unlocalized_bytes(pt2, n2))
            == int_cmp(pt1.spec_letter() as int, pt2.spec_letter() as int),
{
    let a = unlocalized_bytes(pt1, n1);
    let b = unlocalized_bytes(pt2, n2);
    lemma_unlocalized_bytes(pt1, n1);
    lemma_unlocalized_bytes(pt2, n2);
    lemma_six_digits_round_trip(n1);
    lemma_six_digits_round_trip(n2);
    assert(a.drop_first() =~= zero_padded(n1, 6));
    assert(b.drop_first() =~= zero_padded(n2, 6));
    lemma_lex_cmp_numerals(zero_padded(n1, 6), zero_padded(n2, 6));
}

} // verus!
