use vstd::prelude::*;
use vstd::string::StringSliceAdditionalSpecFns;

use core::cmp::Ordering;

use crate::decimal::{
    all_digits, compare_bytes, digits_value, digits_value_of, is_digit,
    lemma_digits_value_bound, lemma_six_digits_round_trip, lex_cmp, parse_decimal, pow10,
    unsigned_decimal, write_zero_padded, zero_padded,
};
use crate::error::Error;
use crate::sealing::Sealed;

verus! {

/// A problem type.
///
/// The type of a problem is given by the letter that starts its id.
#[derive(Debug, Clone, Copy, PartialEq, Eq, Structural)]
pub enum ProblemType {
    /// A game problem (`G`). Game problems are publicly accessible.
    Game,
    /// A public problem (`P`), which can be accessed without authenticating.
    Public,
    /// A private problem (`X`), which can't be accessed without
    /// authenticating. Not every user has access to every private problem,
    /// and a problem that does not exist can't be told apart from one that
    /// can't be accessed.
    Private,
}

impl ProblemType {
    /// The letter of this problem type.
    pub open spec fn spec_letter(self) -> char {
        match self {
            ProblemType::Game => 'G',
            ProblemType::Public => 'P',
            ProblemType::Private => 'X',
        }
    }

    /// The problem type whose letter is `c`, if there is one.
    pub open spec fn spec_from_letter(c: char) -> Option<ProblemType> {
        if c == 'G' {
            Some(ProblemType::Game)
        } else if c == 'P' {
            Some(ProblemType::Public)
        } else if c == 'X' {
            Some(ProblemType::Private)
        } else {
            None
        }
    }

    /// Gets the letter representing this problem type in problem ids.
    pub fn letter(&self) -> (r: char)
        ensures
            r == self.spec_letter(),
    {
        match self {
            ProblemType::Game => 'G',
            ProblemType::Public => 'P',
            ProblemType::Private => 'X',
        }
    }

    /// Checks if a letter represents a problem type.
    pub fn is_valid_letter(letter: char) -> (r: bool)
        ensures
            r == (letter == 'G' || letter == 'P' || letter == 'X'),
            r == (ProblemType::spec_from_letter(letter) is Some),
    {
        letter == 'G' || letter == 'P' || letter == 'X'
    }

    /// The problem type whose letter is `letter`; fails with
    /// [`Error::NotAProblemType`] for any other letter.
    pub fn from_letter(letter: char) -> (r: Result<ProblemType, Error>)
        ensures
            match ProblemType::spec_from_letter(letter) {
                Some(pt) => r == Ok::<ProblemType, Error>(pt),
                None => r == Err::<ProblemType, Error>(Error::NotAProblemType),
            },
    {
        match letter {
            'G' => Ok(ProblemType::Game),
            'P' => Ok(ProblemType::Public),
            'X' => Ok(ProblemType::Private),
            _ => Err(Error::NotAProblemType),
        }
    }
}

impl From<ProblemType> for char {
    fn from(pt: ProblemType) -> char {
        pt.letter()
    }
}

impl vstd::std_specs::convert::FromSpecImpl<ProblemType> for char {
    open spec fn obeys_from_spec() -> bool {
        true
    }

    open spec fn from_spec(v: ProblemType) -> char {
        v.spec_letter()
    }
}

impl TryFrom<char> for ProblemType {
    type Error = Error;

    fn try_from(val: char) -> Result<ProblemType, Error> {
        ProblemType::from_letter(val)
    }
}

impl vstd::std_specs::convert::TryFromSpecImpl<char> for ProblemType {
    open spec fn obeys_try_from_spec() -> bool {
        true
    }

    open spec fn try_from_spec(v: char) -> Result<ProblemType, Error> {
        match ProblemType::spec_from_letter(v) {
            Some(pt) => Ok(pt),
            None => Err(Error::NotAProblemType),
        }
    }
}

/// Each letter names at most one problem type, and each problem type's
/// letter names it.
pub proof fn lemma_letter_round_trip(pt: ProblemType, c: char)
    ensures
        ProblemType::spec_from_letter(pt.spec_letter()) == Some(pt),
        ProblemType::spec_from_letter(c) == Some(pt) ==> c == pt.spec_letter(),
{
}

/// The language of a problem statement.
///
/// More languages may be added in later versions.
#[non_exhaustive]
#[derive(Debug, Clone, Copy, PartialEq, Eq, Structural)]
pub enum ProblemLanguage {
    /// The Catalan language (`ca`).
    Catalan,
    /// The English language (`en`).
    English,
    /// The Spanish language (`es`).
    Spanish,
    /// The French language (`fr`).
    French,
    /// The German language (`de`).
    German,
}

/// The two ASCII bytes of a language code.
pub open spec fn code_bytes(a: char, b: char) -> Seq<u8> {
    seq![a as u8, b as u8]
}

impl ProblemLanguage {
    /// The two-letter code of this language, as ASCII bytes.
    pub open spec fn spec_code(self) -> Seq<u8> {
        match self {
            ProblemLanguage::Catalan => code_bytes('c', 'a'),
            ProblemLanguage::English => code_bytes('e', 'n'),
            ProblemLanguage::Spanish => code_bytes('e', 's'),
            ProblemLanguage::French => code_bytes('f', 'r'),
            ProblemLanguage::German => code_bytes('d', 'e'),
        }
    }

    /// The language whose code is `code`, if there is one.
    pub open spec fn spec_from_code(code: Seq<u8>) -> Option<ProblemLanguage> {
        if code == code_bytes('c', 'a') {
            Some(ProblemLanguage::Catalan)
        } else if code == code_bytes('e', 'n') {
            Some(ProblemLanguage::English)
        } else if code == code_bytes('e', 's') {
            Some(ProblemLanguage::Spanish)
        } else if code == code_bytes('f', 'r') {
            Some(ProblemLanguage::French)
        } else if code == code_bytes('d', 'e') {
            Some(ProblemLanguage::German)
        } else {
            None
        }
    }

    /// Returns the two-letter code of the language as a two-byte array.
    pub fn code(&self) -> (r: [u8; 2])
        ensures
            r@ == self.spec_code(),
    {
        let r = match self {
            ProblemLanguage::Catalan => ['c' as u8, 'a' as u8],
            ProblemLanguage::English => ['e' as u8, 'n' as u8],
            ProblemLanguage::Spanish => ['e' as u8, 's' as u8],
            ProblemLanguage::French => ['f' as u8, 'r' as u8],
            ProblemLanguage::German => ['d' as u8, 'e' as u8],
        };
        assert(r@ =~= self.spec_code());
        r
    }

    /// The language whose code is `code`; fails with
    /// [`Error::NotAProblemLanguage`] for any other code.
    pub fn from_code(code: [u8; 2]) -> (r: Result<ProblemLanguage, Error>)
        ensures
            match ProblemLanguage::spec_from_code(code@) {
                Some(lang) => r == Ok::<ProblemLanguage, Error>(lang),
                None => r == Err::<ProblemLanguage, Error>(Error::NotAProblemLanguage),
            },
    {
        let a = code[0];
        let b = code[1];
        proof {
            assert(code@ =~= seq![a, b]);
        }
        if a == 'c' as u8 && b == 'a' as u8 {
            Ok(ProblemLanguage::Catalan)
        } else if a == 'e' as u8 && b == 'n' as u8 {
            Ok(ProblemLanguage::English)
        } else if a == 'e' as u8 && b == 's' as u8 {
            Ok(ProblemLanguage::Spanish)
        } else if a == 'f' as u8 && b == 'r' as u8 {
            Ok(ProblemLanguage::French)
        } else if a == 'd' as u8 && b == 'e' as u8 {
            Ok(ProblemLanguage::German)
        } else {
            Err(Error::NotAProblemLanguage)
        }
    }

    /// The language whose code is `bytes`; fails with
    /// [`Error::NotAProblemLanguage`] when `bytes` is not two bytes long or
    /// is not a language code.
    pub fn from_bytes(bytes: &[u8]) -> (r: Result<ProblemLanguage, Error>)
        ensures
            match ProblemLanguage::spec_from_code(bytes@) {
                Some(lang) => r == Ok::<ProblemLanguage, Error>(lang),
                None => r == Err::<ProblemLanguage, Error>(Error::NotAProblemLanguage),
            },
    {
        if bytes.len() != 2 {
            return Err(Error::NotAProblemLanguage);
        }
        let code = [bytes[0], bytes[1]];
        assert(code@ =~= bytes@);
        ProblemLanguage::from_code(code)
    }
}

impl TryFrom<[u8; 2]> for ProblemLanguage {
    type Error = Error;

    fn try_from(value: [u8; 2]) -> Result<ProblemLanguage, Error> {
        ProblemLanguage::from_code(value)
    }
}

impl vstd::std_specs::convert::TryFromSpecImpl<[u8; 2]> for ProblemLanguage {
    open spec fn obeys_try_from_spec() -> bool {
        true
    }

    open spec fn try_from_spec(v: [u8; 2]) -> Result<ProblemLanguage, Error> {
        match ProblemLanguage::spec_from_code(v@) {
            Some(lang) => Ok(lang),
            None => Err(Error::NotAProblemLanguage),
        }
    }
}

impl<'a> TryFrom<&'a [u8]> for ProblemLanguage {
    type Error = Error;

    fn try_from(value: &'a [u8]) -> Result<ProblemLanguage, Error> {
        ProblemLanguage::from_bytes(value)
    }
}

impl<'a> vstd::std_specs::convert::TryFromSpecImpl<&'a [u8]> for ProblemLanguage {
    open spec fn obeys_try_from_spec() -> bool {
        true
    }

    open spec fn try_from_spec(v: &'a [u8]) -> Result<ProblemLanguage, Error> {
        match ProblemLanguage::spec_from_code(v@) {
            Some(lang) => Ok(lang),
            None => Err(Error::NotAProblemLanguage),
        }
    }
}

/// Each language code names at most one language, and each language's code
/// names it.
pub proof fn lemma_code_round_trip(lang: ProblemLanguage, code: Seq<u8>)
    ensures
        lang.spec_code().len() == 2,
        ProblemLanguage::spec_from_code(lang.spec_code()) == Some(lang),
        ProblemLanguage::spec_from_code(code) == Some(lang) ==> code == lang.spec_code(),
{
}

/// Lets the type system tell localized and unlocalized problem ids apart.
pub trait ProblemIdType: Sized + Sealed {
    /// The bytes of the problem id's text.
    spec fn spec_repr(&self) -> Seq<u8>;

    /// Returns the UTF-8 representation of the problem id.
    fn representation(&self) -> (r: &[u8])
        ensures
            r@ == self.spec_repr(),
    ;
}

/// The kind of problem ids without a language: a type letter and six digits.
#[derive(Clone, Copy, Debug, PartialEq, Eq, PartialOrd, Ord, Hash)]
pub struct Unlocalized([u8; 7]);

impl Sealed for Unlocalized {

}

impl ProblemIdType for Unlocalized {
    closed spec fn spec_repr(&self) -> Seq<u8> {
        self.0@
    }

    fn representation(&self) -> (r: &[u8]) {
        self.0.as_slice()
    }
}

/// The kind of problem ids with a language: an unlocalized id, `_` and a
/// two-letter language code.
#[derive(Clone, Copy, Debug, PartialEq, Eq, PartialOrd, Ord, Hash)]
pub struct Localized([u8; 10]);

impl Sealed for Localized {

}

impl ProblemIdType for Localized {
    closed spec fn spec_repr(&self) -> Seq<u8> {
        self.0@
    }

    fn representation(&self) -> (r: &[u8]) {
        self.0.as_slice()
    }
}

/// The separator between an unlocalized id and its language code.
pub open spec fn separator() -> u8 {
    '_' as u8
}

/// The text of the unlocalized id of type `pt` and numeric id `n`: the type
/// letter and `n` in six zero-padded digits.
pub open spec fn unlocalized_bytes(pt: ProblemType, n: nat) -> Seq<u8> {
    seq![pt.spec_letter() as u8] + zero_padded(n, 6)
}

/// The text of the localized id of type `pt`, numeric id `n` and language
/// `lang`: the unlocalized id, `_` and the language code.
pub open spec fn localized_bytes(pt: ProblemType, n: nat, lang: ProblemLanguage) -> Seq<u8> {
    unlocalized_bytes(pt, n) + seq![separator()] + lang.spec_code()
}

/// Whether `b` starts with a type letter followed by six digits.
pub open spec fn valid_prefix(b: Seq<u8>) -> bool {
    &&& b.len() >= 7
    &&& ProblemType::spec_from_letter(b[0] as char) is Some
    &&& all_digits(b.subrange(1, 7))
}

/// Whether `b` is the text of an unlocalized or of a localized problem id.
pub open spec fn valid_id_bytes(b: Seq<u8>) -> bool {
    &&& valid_prefix(b)
    &&& (b.len() == 7 || (b.len() == 10 && b[7] == separator()
        && ProblemLanguage::spec_from_code(b.subrange(8, 10)) is Some))
}

/// The problem type that the text `b` of a problem id names.
pub open spec fn type_of_id(b: Seq<u8>) -> ProblemType {
    ProblemType::spec_from_letter(b[0] as char)->Some_0
}

/// The numeric id that the text `b` of a problem id holds.
pub open spec fn number_of_id(b: Seq<u8>) -> nat {
    digits_value(b.subrange(1, 7))
}

/// The language that the text `b` of a localized problem id names.
pub open spec fn language_of_id(b: Seq<u8>) -> ProblemLanguage {
    ProblemLanguage::spec_from_code(b.subrange(8, 10))->Some_0
}

/// Whether `r` is an [`Error::InvalidProblemId`].
pub open spec fn fails_as_invalid_id<T>(r: Result<T, Error>) -> bool {
    r matches Err(Error::InvalidProblemId(_))
}

/// The characters of the ASCII bytes `b`.
pub open spec fn ascii_text(b: Seq<u8>) -> Seq<char> {
    b.map_values(|c: u8| c as char)
}

/// The unsigned decimal integer in the six bytes after the type letter.
pub open spec fn numeric_part(b: Seq<u8>) -> Option<nat> {
    unsigned_decimal(b.subrange(1, 7))
}

/// What the text `b` reads as, as an unlocalized problem id: the text of the
/// id it names, or nothing where it names none.
pub open spec fn parsed_unlocalized(b: Seq<u8>) -> Option<Seq<u8>> {
    if b.len() == 7 && ProblemType::spec_from_letter(b[0] as char) is Some && numeric_part(
        b,
    ) is Some {
        Some(unlocalized_bytes(type_of_id(b), numeric_part(b)->Some_0))
    } else {
        None
    }
}

/// What the text `b` reads as, as a localized problem id: the text of the id
/// it names, or nothing where it names none.
pub open spec fn parsed_localized(b: Seq<u8>) -> Option<Seq<u8>> {
    if b.len() == 10 && b[7] == separator() && ProblemType::spec_from_letter(b[0] as char) is Some
        && numeric_part(b) is Some && ProblemLanguage::spec_from_code(b.subrange(8, 10)) is Some {
        Some(localized_bytes(type_of_id(b), numeric_part(b)->Some_0, language_of_id(b)))
    } else {
        None
    }
}

/// Relies on `String::from_utf8_lossy`: bytes that are all ASCII come out as
/// the same characters, one for one.
#[verifier::external_body]
fn ascii_to_string(b: &[u8]) -> (r: String)
    requires
        forall|i: int| 0 <= i < b@.len() ==> #[trigger] b@[i] < 128,
    ensures
        r@ == ascii_text(b@),
{
    String::from_utf8_lossy(b).into_owned()
}

/// Type-safe representation of a problem id. Its bytes are its only state.
#[derive(Copy, Debug, PartialEq, Eq, Ord, Hash)]
pub struct ProblemId<T: ProblemIdType>(T);

impl<T: ProblemIdType> View for ProblemId<T> {
    type V = Seq<u8>;

    /// The text of the problem id, as bytes.
    closed spec fn view(&self) -> Seq<u8> {
        self.0.spec_repr()
    }
}

impl<T: ProblemIdType + Copy> Clone for ProblemId<T> {
    fn clone(&self) -> Self {
        proof {
            use_type_invariant(self);
        }
        ProblemId(self.0)
    }
}

/// Problem ids are ordered byte by byte on their text: by type letter, then
/// by numeric id, then by language code.
impl<T: ProblemIdType + PartialEq> PartialOrd for ProblemId<T> {
    fn partial_cmp(&self, other: &Self) -> Option<Ordering> {
        Some(compare_bytes(self.0.representation(), other.0.representation()))
    }
}

impl<T: ProblemIdType + PartialEq> vstd::std_specs::cmp::PartialOrdSpecImpl for ProblemId<T> {
    open spec fn obeys_partial_cmp_spec() -> bool {
        true
    }

    open spec fn partial_cmp_spec(&self, other: &Self) -> Option<Ordering> {
        Some(lex_cmp(self@, other@))
    }
}

impl<T: ProblemIdType> ProblemId<T> {
    #[verifier::type_invariant]
    spec fn well_formed(self) -> bool {
        valid_id_bytes(self.0.spec_repr())
    }

    /// Gets the problem type of the problem id.
    pub fn problem_type(&self) -> (r: ProblemType)
        ensures
            r == type_of_id(self@),
            r.spec_letter() as u8 == self@[0],
    {
        proof {
            use_type_invariant(self);
        }
        let b = self.0.representation();
        let c = b[0] as char;
        if c == 'G' {
            ProblemType::Game
        } else if c == 'P' {
            ProblemType::Public
        } else {
            ProblemType::Private
        }
    }

    /// The text of the problem id: its bytes, which are all ASCII.
    pub fn to_string(&self) -> (r: String)
        ensures
            r@ == ascii_text(self@),
    {
        proof {
            use_type_invariant(self);
        }
        let b = self.0.representation();
        proof {
            assert(b@ == self@);
            assert forall|i: int| 0 <= i < b@.len() implies #[trigger] b@[i] < 128 by {
                if i == 0 {
                    assert(b@[0] == 71 || b@[0] == 80 || b@[0] == 88);
                } else if 1 <= i < 7 {
                    assert(is_digit(b@.subrange(1, 7)[i - 1]));
                } else if i >= 8 {
                    assert(b@[i] == b@.subrange(8, 10)[i - 8]);
                }
            }
        }
        ascii_to_string(b)
    }

    /// Gets the numeric id of the problem id.
    pub fn problem_id(&self) -> (r: u32)
        ensures
            r == number_of_id(self@),
            r < 1_000_000,
    {
        proof {
            use_type_invariant(self);
            lemma_digits_value_bound(self@.subrange(1, 7));
            reveal_with_fuel(pow10, 7);
        }
        let b = self.0.representation();
        digits_value_of(b, 1, 7)
    }
}

impl ProblemId<Unlocalized> {
    /// Creates an unlocalized problem id from a type and a numeric id.
    ///
    /// # Errors
    /// The numeric id must be at most 6 digits long. If it isn't,
    /// [`Error::InvalidProblemId`] is returned.
    pub fn new_unlocalized(pt: ProblemType, id: u32) -> (r: Result<Self, Error>)
        ensures
            id < 1_000_000 <==> r is Ok,
            r matches Ok(p) ==> p@ == unlocalized_bytes(pt, id as nat),
            r matches Err(e) ==> e is InvalidProblemId,
    {
        if id < 1_000_000 {
            let mut buf = [0u8; 7];
            buf[0] = pt.letter() as u8;
            write_zero_padded(&mut buf, 1, id, 6);
            proof {
                lemma_six_digits_round_trip(id as nat);
                assert(buf@ =~= unlocalized_bytes(pt, id as nat));
                assert(buf@.subrange(1, 7) == zero_padded(id as nat, 6));
            }
            Ok(ProblemId(Unlocalized(buf)))
        } else {
            Err(Error::InvalidProblemId("numeric id must be at most 6 digits long".to_owned()))
        }
    }
}

impl ProblemId<Unlocalized> {
    /// Parses an unlocalized problem id from its text, such as `P000042`.
    ///
    /// # Errors
    /// [`Error::InvalidProblemId`] when `s` is not 7 bytes long or its last 6
    /// bytes are not an unsigned decimal integer, and
    /// [`Error::NotAProblemType`] when it does not start with a type letter.
    pub fn parse(s: &str) -> (r: Result<Self, Error>)
        ensures
            r is Ok <==> parsed_unlocalized(s.spec_bytes()) is Some,
            r matches Ok(p) ==> parsed_unlocalized(s.spec_bytes()) == Some(p@),
            s.spec_bytes().len() != 7 ==> fails_as_invalid_id(r),
            s.spec_bytes().len() == 7 && ProblemType::spec_from_letter(s.spec_bytes()[0] as char) is None
                ==> r == Err::<Self, Error>(Error::NotAProblemType),
            s.spec_bytes().len() == 7 && ProblemType::spec_from_letter(s.spec_bytes()[0] as char) is Some
                && numeric_part(s.spec_bytes()) is None ==> fails_as_invalid_id(r),
    {
        let b = s.as_bytes();
        if b.len() != 7 {
            return Err(Error::InvalidProblemId("string should be 7 characters long".to_owned()));
        }
        let pt = match ProblemType::from_letter(b[0] as char) {
            Ok(pt) => pt,
            Err(e) => return Err(e),
        };
        let id = match parse_decimal(b, 1, 7) {
            Some(id) => id,
            None => {
                return Err(
                    Error::InvalidProblemId("last 6 characters should be numeric".to_owned()),
                );
            },
        };
        proof {
            reveal_with_fuel(pow10, 7);
        }
        ProblemId::new_unlocalized(pt, id)
    }
}

impl core::str::FromStr for ProblemId<Unlocalized> {
    type Err = Error;

    fn from_str(s: &str) -> Result<Self, Error> {
        ProblemId::<Unlocalized>::parse(s)
    }
}

impl core::str::FromStr for ProblemId<Localized> {
    type Err = Error;

    fn from_str(s: &str) -> Result<Self, Error> {
        ProblemId::<Localized>::parse(s)
    }
}

impl ProblemId<Localized> {
    /// Parses a localized problem id from its text, such as `P000042_en`.
    ///
    /// # Errors
    /// [`Error::InvalidProblemId`] when `s` is not 10 bytes long, its byte 7
    /// is not `_`, or the 6 bytes after its first are not an unsigned decimal
    /// integer; [`Error::NotAProblemType`] when it does not start with a type
    /// letter; [`Error::NotAProblemLanguage`] when it does not end with a
    /// language code. The checks come in this order.
    pub fn parse(s: &str) -> (r: Result<Self, Error>)
        ensures
            r is Ok <==> parsed_localized(s.spec_bytes()) is Some,
            r matches Ok(p) ==> parsed_localized(s.spec_bytes()) == Some(p@),
            ({
                let b = s.spec_bytes();
                let letter_ok = ProblemType::spec_from_letter(b[0] as char) is Some;
                &&& b.len() != 10 ==> fails_as_invalid_id(r)
                &&& b.len() == 10 && b[7] != separator() ==> fails_as_invalid_id(r)
                &&& b.len() == 10 && b[7] == separator() && !letter_ok ==> r == Err::<Self, Error>(
                    Error::NotAProblemType,
                )
                &&& b.len() == 10 && b[7] == separator() && letter_ok && numeric_part(b) is None
                    ==> fails_as_invalid_id(r)
                &&& b.len() == 10 && b[7] == separator() && letter_ok && numeric_part(b) is Some
                    && ProblemLanguage::spec_from_code(b.subrange(8, 10)) is None ==> r == Err::<
                    Self,
                    Error,
                >(Error::NotAProblemLanguage)
            }),
    {
        let b = s.as_bytes();
        if b.len() != 10 {
            return Err(Error::InvalidProblemId("string should be 10 characters long".to_owned()));
        }
        if b[7] != '_' as u8 {
            return Err(Error::InvalidProblemId("unexpected character in problem id".to_owned()));
        }
        let pt = match ProblemType::from_letter(b[0] as char) {
            Ok(pt) => pt,
            Err(e) => return Err(e),
        };
        let id = match parse_decimal(b, 1, 7) {
            Some(id) => id,
            None => {
                return Err(
                    Error::InvalidProblemId("last 6 characters should be numeric".to_owned()),
                );
            },
        };
        let lang = match ProblemLanguage::from_code([b[8], b[9]]) {
            Ok(lang) => lang,
            Err(e) => return Err(e),
        };
        proof {
            reveal_with_fuel(pow10, 7);
            assert([b[8], b[9]]@ =~= b@.subrange(8, 10));
        }
        ProblemId::new_localized(pt, id, lang)
    }

    /// Creates a localized problem id from a type, a numeric id and a
    /// language.
    ///
    /// # Errors
    /// The numeric id must be at most 6 digits long. If it isn't,
    /// [`Error::InvalidProblemId`] is returned.
    pub fn new_localized(pt: ProblemType, id: u32, lang: ProblemLanguage) -> (r: Result<
        Self,
        Error,
    >)
        ensures
            id < 1_000_000 <==> r is Ok,
            r matches Ok(p) ==> p@ == localized_bytes(pt, id as nat, lang),
            r matches Err(e) ==> e is InvalidProblemId,
    {
        let unlocalized = ProblemId::new_unlocalized(pt, id)?;
        let prefix = unlocalized.0.representation();
        let mut buf = [0u8; 10];
        let mut i: usize = 0;
        while i < 7
            invariant
                0 <= i <= 7,
                prefix@ == unlocalized_bytes(pt, id as nat),
                prefix@.len() == 7,
                buf@.len() == 10,
                forall|j: int| 0 <= j < i ==> #[trigger] buf@[j] == prefix@[j],
            decreases 7 - i,
        {
            buf[i] = prefix[i];
            i = i + 1;
        }
        buf[7] = '_' as u8;
        let code = lang.code();
        buf[8] = code[0];
        buf[9] = code[1];
        proof {
            lemma_six_digits_round_trip(id as nat);
            assert(buf@ =~= localized_bytes(pt, id as nat, lang));
            assert(buf@.subrange(1, 7) =~= zero_padded(id as nat, 6));
            assert(buf@.subrange(8, 10) =~= lang.spec_code());
        }
        Ok(ProblemId(Localized(buf)))
    }

    /// Gets the language of the problem id.
    pub fn language(&self) -> (r: ProblemLanguage)
        ensures
            r == language_of_id(self@),
            r.spec_code() == self@.subrange(8, 10),
    {
        proof {
            use_type_invariant(self);
        }
        let b = self.0.representation();
        let a = b[8];
        let c = b[9];
        proof {
            assert(self@.subrange(8, 10) =~= seq![a, c]);
        }
        if a == 'c' as u8 {
            ProblemLanguage::Catalan
        } else if a == 'f' as u8 {
            ProblemLanguage::French
        } else if a == 'd' as u8 {
            ProblemLanguage::German
        } else if c == 'n' as u8 {
            ProblemLanguage::English
        } else {
            ProblemLanguage::Spanish
        }
    }
}

} // verus!
