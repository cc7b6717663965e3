//! Identifiers: the conversions between the hyphenated form of the interface
//! text, the underscored form of routine names and the capitalised form of
//! type names, and the rule that says which identifiers may be declared.

use crate::text::{
    append, chars_of, contains, replace_char, replaced, search, slice, split, split_on, string_of,
    views,
};
use vstd::prelude::*;

verus! {

/// The upper-case mapping of `c` in Unicode, as `char::to_uppercase` of the
/// standard library yields it.
pub uninterp spec fn uppercase_of(c: char) -> Seq<char>;

/// `char::to_uppercase` of the standard library, its characters collected in
/// order. The mapping of a character depends on the character alone and, as
/// the library documents, holds one character or more.
#[verifier::external_body]
fn uppercase(c: char) -> (r: Vec<char>)
    ensures
        r@ == uppercase_of(c),
        r@.len() >= 1,
{
    c.to_uppercase().collect()
}

/// The underscored form of a hyphenated identifier: every `-` becomes `_`.
pub open spec fn snake_case(s: Seq<char>) -> Seq<char> {
    replace_char(s, '-', "_"@)
}

/// The capital for `c`: for a small letter of the Latin alphabet its
/// capital letter, and for any other character the first character of its
/// upper-case mapping in Unicode.
pub open spec fn capital(c: char) -> char {
    if 'a' <= c <= 'z' {
        ((c as u32) - 32) as char
    } else {
        uppercase_of(c)[0]
    }
}

/// `word` with its first character replaced by its capital.
pub open spec fn capitalized(word: Seq<char>) -> Seq<char> {
    if word.len() == 0 {
        word
    } else {
        seq![capital(word[0])] + word.skip(1)
    }
}

/// The words of `words`, each capitalised, in a row.
pub open spec fn capitalized_all(words: Seq<Seq<char>>) -> Seq<char>
    decreases words.len(),
{
    if words.len() == 0 {
        Seq::<char>::empty()
    } else {
        capitalized_all(words.drop_last()) + capitalized(words.last())
    }
}

/// The capitalised form of a hyphenated identifier: the words between the
/// hyphens, each capitalised, with nothing between them.
pub open spec fn pascal_case(s: Seq<char>) -> Seq<char> {
    capitalized_all(split(s, '-'))
}

/// The underscored form of `s`, as a sequence of characters.
pub fn snake_chars(s: &Vec<char>) -> (r: Vec<char>)
    ensures
        r@ == snake_case(s@),
{
    replaced(s, '-', "_")
}

/// The capital for `c`.
pub fn to_capital(c: char) -> (r: char)
    ensures
        r == capital(c),
{
    if 'a' <= c && c <= 'z' {
        let n: u8 = c as u8;
        (n - 32) as char
    } else {
        let upper = uppercase(c);
        upper[0]
    }
}

/// The capitalised form of `s`, as a sequence of characters.
pub fn pascal_chars(s: &Vec<char>) -> (r: Vec<char>)
    ensures
        r@ == pascal_case(s@),
{
    let words = split_on(s, '-');
    let mut out: Vec<char> = Vec::new();
    let mut i: usize = 0;
    while i < words.len()
        invariant
            i <= words.len(),
            out@ == capitalized_all(views(words@).take(i as int)),
        decreases words.len() - i,
    {
        let word = &words[i];
        proof {
            let next = views(words@).take(i + 1);
            assert(next.drop_last() == views(words@).take(i as int));
            assert(next.last() == word@);
        }
        if word.len() > 0 {
            out.push(to_capital(word[0]));
            let rest = slice(word, 1, word.len());
            append(&mut out, &rest);
            assert(out@ == capitalized_all(views(words@).take(i as int)) + capitalized(word@));
        }
        i = i + 1;
    }
    assert(views(words@).take(words.len() as int) == views(words@));
    out
}

/// Converts a hyphenated identifier to its underscored form.
pub fn to_snake_case(s: &str) -> (r: String)
    ensures
        r@ == snake_case(s@),
{
    let chars = chars_of(s);
    let out = snake_chars(&chars);
    string_of(&out)
}

/// Converts a hyphenated identifier to its capitalised form.
pub fn to_pascal_case(s: &str) -> (r: String)
    ensures
        r@ == pascal_case(s@),
{
    let chars = chars_of(s);
    let out = pascal_chars(&chars);
    string_of(&out)
}

/// `c` is a capital letter of the Latin alphabet.
pub open spec fn is_upper(c: char) -> bool {
    'A' <= c <= 'Z'
}

/// A new word begins at position `i` of `s`: a capital letter stands there,
/// not at the start and not behind a separator, and either it follows a
/// character that is no capital, or it is the last capital of a run of
/// capitals and a small letter follows it.
pub open spec fn word_break(s: Seq<char>, i: int) -> bool {
    &&& 0 < i < s.len()
    &&& is_upper(s[i])
    &&& s[i - 1] != '_'
    &&& s[i - 1] != '-'
    &&& (!is_upper(s[i - 1]) || (i + 1 < s.len() && 'a' <= s[i + 1] <= 'z'))
}

/// What the hyphenated form holds for the character at position `i` of
/// `s`: a hyphen for an underscore, the small letter for a capital, any
/// other character as it is; and a hyphen before it where a new word
/// begins.
pub open spec fn kebab_piece(s: Seq<char>, i: int) -> Seq<char> {
    let c = if s[i] == '_' {
        '-'
    } else {
        lower(s[i])
    };
    if word_break(s, i) {
        seq!['-', c]
    } else {
        seq![c]
    }
}

/// The hyphenated form of the first `n` characters of `s`.
pub open spec fn kebab_upto(s: Seq<char>, n: int) -> Seq<char>
    decreases n,
{
    if n <= 0 {
        Seq::<char>::empty()
    } else {
        kebab_upto(s, n - 1) + kebab_piece(s, n - 1)
    }
}

/// The hyphenated form of an identifier written with underscores or with
/// capitals: small letters, with a hyphen between each two words.
pub open spec fn kebab_case(s: Seq<char>) -> Seq<char> {
    kebab_upto(s, s.len() as int)
}

/// The hyphenated form of `s`, as a sequence of characters.
pub fn kebab_chars(s: &Vec<char>) -> (r: Vec<char>)
    ensures
        r@ == kebab_case(s@),
{
    let mut out: Vec<char> = Vec::new();
    let mut i: usize = 0;
    while i < s.len()
        invariant
            i <= s.len(),
            out@ == kebab_upto(s@, i as int),
        decreases s.len() - i,
    {
        let c = s[i];
        if i > 0 && 'A' <= c && c <= 'Z' {
            let before = s[i - 1];
            let after_run = !('A' <= before && before <= 'Z');
            let before_small = i + 1 < s.len() && 'a' <= s[i + 1] && s[i + 1] <= 'z';
            if before != '_' && before != '-' && (after_run || before_small) {
                out.push('-');
            }
        }
        if c == '_' {
            out.push('-');
        } else {
            out.push(to_lower(c));
        }
        assert(out@ =~= kebab_upto(s@, i as int) + kebab_piece(s@, i as int));
        i = i + 1;
    }
    out
}

/// Converts an identifier written with underscores or with capitals to its
/// hyphenated form.
pub fn to_kebab_case(s: &str) -> (r: String)
    ensures
        r@ == kebab_case(s@),
{
    let chars = chars_of(s);
    let out = kebab_chars(&chars);
    string_of(&out)
}

/// What an identifier names.
#[derive(Clone, Copy, Debug, PartialEq, Eq, Structural)]
pub enum DeclKind {
    Type,
    Field,
    Function,
    Parameter,
    VariantCase,
}

/// An identifier that may not be declared, and what it was to name.
#[derive(Debug, PartialEq, Eq)]
pub struct NamingViolation {
    pub kind: DeclKind,
    pub identifier: String,
}

/// `c` is one of the ten decimal digits.
pub open spec fn is_digit(c: char) -> bool {
    '0' <= c <= '9'
}

/// `s` holds a decimal digit.
pub open spec fn has_digit(s: Seq<char>) -> bool {
    exists|i: int| 0 <= i < s.len() && is_digit(#[trigger] s[i])
}

/// The small letter for a capital letter of the Latin alphabet, and every
/// other character as it is.
pub open spec fn lower(c: char) -> char {
    if 'A' <= c <= 'Z' {
        ((c as u32) + 32) as char
    } else {
        c
    }
}

/// `s` with `lower` applied to every character.
pub open spec fn lowered(s: Seq<char>) -> Seq<char> {
    Seq::new(s.len(), |i: int| lower(s[i]))
}

/// `s` holds the word `stream`, in capital or small letters or both.
pub open spec fn names_stream(s: Seq<char>) -> bool {
    contains(lowered(s), "stream"@)
}

/// `s` may be declared: it holds no decimal digit and not the word
/// `stream`.
pub open spec fn acceptable(s: Seq<char>) -> bool {
    !has_digit(s) && !names_stream(s)
}

/// The small letter for a capital letter of the Latin alphabet, and every
/// other character as it is.
pub fn to_lower(c: char) -> (r: char)
    ensures
        r == lower(c),
{
    if 'A' <= c && c <= 'Z' {
        let n: u8 = c as u8;
        (n + 32) as char
    } else {
        c
    }
}

/// Whether `s` may be declared.
pub fn is_acceptable(s: &Vec<char>) -> (r: bool)
    ensures
        r == acceptable(s@),
{
    let mut folded: Vec<char> = Vec::new();
    let mut i: usize = 0;
    while i < s.len()
        invariant
            i <= s.len(),
            folded@ == lowered(s@).take(i as int),
            forall|k: int| 0 <= k < i ==> !is_digit(#[trigger] s@[k]),
        decreases s.len() - i,
    {
        let c = s[i];
        if '0' <= c && c <= '9' {
            return false;
        }
        folded.push(to_lower(c));
        assert(folded@ =~= lowered(s@).take(i + 1));
        i = i + 1;
    }
    assert(lowered(s@).take(s.len() as int) == lowered(s@));
    search(&folded, "stream").is_none()
}

/// Accepts the identifier `name` for a declaration of the kind `kind`, or
/// rejects it because it holds a decimal digit or the word `stream`.
pub fn validate_name(kind: DeclKind, name: &str) -> (r: Result<(), NamingViolation>)
    ensures
        match r {
            Ok(_) => acceptable(name@),
            Err(v) => !acceptable(name@) && v.kind == kind && v.identifier@ == name@,
        },
{
    let chars = chars_of(name);
    if is_acceptable(&chars) {
        Ok(())
    } else {
        Err(NamingViolation { kind, identifier: string_of(&chars) })
    }
}

} // verus!
