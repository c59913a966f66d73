//! The vocabulary: the closed set of recognized keyword atoms, with
//! case-insensitive lookup from a spelling and rendering back to the
//! canonical uppercase spelling.

use vstd::prelude::*;
use vstd::string::StrSliceExecFns;
use vstd::string::StringExecFns;

verus! {

/// A keyword atom. The set is closed and fixed: adding a keyword is a
/// vocabulary change, not a parser change.
#[derive(Debug, Clone, Copy, PartialEq, Eq, Structural)]
pub enum Words {
    Define,
    Module,
    Function,
    Call,
    Equal,
    Argument,
    The,
    With,
    Contents,
    End,
    Is,
    To,
    SetKw,
    A,
    Expects,
    That,
    Returns,
    Contains,
    Display,
    If,
    Then,
    Do,
    True,
    False,
    Begin,
    Program,
}

/// A keyword occurrence: which atom it is, plus a plural flag
/// (plural detection is reserved; the tokenizer always sets it to false).
#[derive(Debug, Clone, Copy, PartialEq, Eq, Structural)]
pub struct Word {
    pub which: Words,
    pub plural: bool,
}

/// The canonical lowercase spelling of a keyword atom.
pub open spec fn word_text(w: Words) -> Seq<char> {
    match w {
        Words::Define => seq!['d', 'e', 'f', 'i', 'n', 'e'],
        Words::Module => seq!['m', 'o', 'd', 'u', 'l', 'e'],
        Words::Function => seq!['f', 'u', 'n', 'c', 't', 'i', 'o', 'n'],
        Words::Call => seq!['c', 'a', 'l', 'l'],
        Words::Equal => seq!['e', 'q', 'u', 'a', 'l'],
        Words::Argument => seq!['a', 'r', 'g', 'u', 'm', 'e', 'n', 't'],
        Words::The => seq!['t', 'h', 'e'],
        Words::With => seq!['w', 'i', 't', 'h'],
        Words::Contents => seq!['c', 'o', 'n', 't', 'e', 'n', 't', 's'],
        Words::End => seq!['e', 'n', 'd'],
        Words::Is => seq!['i', 's'],
        Words::To => seq!['t', 'o'],
        Words::SetKw => seq!['s', 'e', 't'],
        Words::A => seq!['a'],
        Words::Expects => seq!['e', 'x', 'p', 'e', 'c', 't', 's'],
        Words::That => seq!['t', 'h', 'a', 't'],
        Words::Returns => seq!['r', 'e', 't', 'u', 'r', 'n', 's'],
        Words::Contains => seq!['c', 'o', 'n', 't', 'a', 'i', 'n', 's'],
        Words::Display => seq!['d', 'i', 's', 'p', 'l', 'a', 'y'],
        Words::If => seq!['i', 'f'],
        Words::Then => seq!['t', 'h', 'e', 'n'],
        Words::Do => seq!['d', 'o'],
        Words::True => seq!['t', 'r', 'u', 'e'],
        Words::False => seq!['f', 'a', 'l', 's', 'e'],
        Words::Begin => seq!['b', 'e', 'g', 'i', 'n'],
        Words::Program => seq!['p', 'r', 'o', 'g', 'r', 'a', 'm'],
    }
}

/// Maps an ASCII uppercase letter to its lowercase form; leaves every other
/// character unchanged.
pub open spec fn lower_char(c: char) -> char {
    if 'A' <= c && c <= 'Z' {
        ((c as u8) + 32) as char
    } else {
        c
    }
}

/// Maps an ASCII lowercase letter to its uppercase form; leaves every other
/// character unchanged.
pub open spec fn upper_char(c: char) -> char {
    if 'a' <= c && c <= 'z' {
        ((c as u8) - 32) as char
    } else {
        c
    }
}

/// Character-wise ASCII lowercasing.
pub open spec fn lower_seq(s: Seq<char>) -> Seq<char> {
    s.map_values(|c: char| lower_char(c))
}

/// The canonical uppercase spelling of a keyword atom.
pub open spec fn word_upper(w: Words) -> Seq<char> {
    word_text(w).map_values(|c: char| upper_char(c))
}

/// Case-insensitive exact-phrase lookup: the result is the keyword atom
/// whose spelling matches the text, or None when no keyword matches.
pub open spec fn spec_resolve(s: Seq<char>) -> Option<Words> {
    let l = lower_seq(s);
    if l == word_text(Words::Define) {
        Some(Words::Define)
    } else if l == word_text(Words::Module) {
        Some(Words::Module)
    } else if l == word_text(Words::Function) {
        Some(Words::Function)
    } else if l == word_text(Words::Call) {
        Some(Words::Call)
    } else if l == word_text(Words::Equal) {
        Some(Words::Equal)
    } else if l == word_text(Words::Argument) {
        Some(Words::Argument)
    } else if l == word_text(Words::The) {
        Some(Words::The)
    } else if l == word_text(Words::With) {
        Some(Words::With)
    } else if l == word_text(Words::Contents) {
        Some(Words::Contents)
    } else if l == word_text(Words::End) {
        Some(Words::End)
    } else if l == word_text(Words::Is) {
        Some(Words::Is)
    } else if l == word_text(Words::To) {
        Some(Words::To)
    } else if l == word_text(Words::SetKw) {
        Some(Words::SetKw)
    } else if l == word_text(Words::A) {
        Some(Words::A)
    } else if l == word_text(Words::Expects) {
        Some(Words::Expects)
    } else if l == word_text(Words::That) {
        Some(Words::That)
    } else if l == word_text(Words::Returns) {
        Some(Words::Returns)
    } else if l == word_text(Words::Contains) {
        Some(Words::Contains)
    } else if l == word_text(Words::Display) {
        Some(Words::Display)
    } else if l == word_text(Words::If) {
        Some(Words::If)
    } else if l == word_text(Words::Then) {
        Some(Words::Then)
    } else if l == word_text(Words::Do) {
        Some(Words::Do)
    } else if l == word_text(Words::True) {
        Some(Words::True)
    } else if l == word_text(Words::False) {
        Some(Words::False)
    } else if l == word_text(Words::Begin) {
        Some(Words::Begin)
    } else if l == word_text(Words::Program) {
        Some(Words::Program)
    } else {
        None
    }
}

/// Lowercases one character (ASCII case folding).
pub fn lower_char_exec(c: char) -> (r: char)
    ensures
        r == lower_char(c),
{
    let x = c as u32;
    if 65 <= x && x <= 90 {
        (((x + 32) as u8) as char)
    } else {
        c
    }
}

/// Character-wise ASCII lowercasing of a character buffer.
pub fn to_lower_vec(s: &Vec<char>) -> (r: Vec<char>)
    ensures
        r@ == lower_seq(s@),
{
    let mut r: Vec<char> = Vec::new();
    let mut i: usize = 0;
    while i < s.len()
        invariant
            i <= s@.len(),
            r@ == lower_seq(s@).take(i as int),
        decreases s@.len() - i,
    {
        r.push(lower_char_exec(s[i]));
        i = i + 1;
        proof {
            assert(r@ =~= lower_seq(s@).take(i as int));
        }
    }
    proof {
        assert(r@ =~= lower_seq(s@));
    }
    r
}

/// Compares a character buffer with a string slice, character by character.
pub fn chars_eq_str(v: &Vec<char>, s: &str) -> (b: bool)
    ensures
        b == (v@ == s@),
{
    let n = s.unicode_len();
    if v.len() != n {
        proof {
            assert(v@.len() != s@.len());
        }
        return false;
    }
    let mut i: usize = 0;
    while i < n
        invariant
            n == s@.len(),
            v@.len() == n,
            i <= n,
            forall|k: int| 0 <= k < i ==> v@[k] == s@[k],
        decreases n - i,
    {
        if v[i] != s.get_char(i) {
            proof {
                assert(v@[i as int] != s@[i as int]);
            }
            return false;
        }
        i = i + 1;
    }
    proof {
        assert(v@ =~= s@);
    }
    true
}

impl Words {
    /// Case-insensitive exact-phrase lookup of a spelling in the vocabulary.
    /// There is no abbreviation and no fuzzy matching.
    pub fn resolve(text: &Vec<char>) -> (r: Option<Words>)
        ensures
            r == spec_resolve(text@),
    {
        let l = to_lower_vec(text);
        proof {
            reveal_strlit("define");
            reveal_strlit("module");
            reveal_strlit("function");
            reveal_strlit("call");
            reveal_strlit("equal");
            reveal_strlit("argument");
            reveal_strlit("the");
            reveal_strlit("with");
            reveal_strlit("contents");
            reveal_strlit("end");
            reveal_strlit("is");
            reveal_strlit("to");
            reveal_strlit("set");
            reveal_strlit("a");
            reveal_strlit("expects");
            reveal_strlit("that");
            reveal_strlit("returns");
            reveal_strlit("contains");
            reveal_strlit("display");
            reveal_strlit("if");
            reveal_strlit("then");
            reveal_strlit("do");
            reveal_strlit("true");
            reveal_strlit("false");
            reveal_strlit("begin");
            reveal_strlit("program");
            assert("define"@ =~= word_text(Words::Define));
            assert("module"@ =~= word_text(Words::Module));
            assert("function"@ =~= word_text(Words::Function));
            assert("call"@ =~= word_text(Words::Call));
            assert("equal"@ =~= word_text(Words::Equal));
            assert("argument"@ =~= word_text(Words::Argument));
            assert("the"@ =~= word_text(Words::The));
            assert("with"@ =~= word_text(Words::With));
            assert("contents"@ =~= word_text(Words::Contents));
            assert("end"@ =~= word_text(Words::End));
            assert("is"@ =~= word_text(Words::Is));
            assert("to"@ =~= word_text(Words::To));
            assert("set"@ =~= word_text(Words::SetKw));
            assert("a"@ =~= word_text(Words::A));
            assert("expects"@ =~= word_text(Words::Expects));
            assert("that"@ =~= word_text(Words::That));
            assert("returns"@ =~= word_text(Words::Returns));
            assert("contains"@ =~= word_text(Words::Contains));
            assert("display"@ =~= word_text(Words::Display));
            assert("if"@ =~= word_text(Words::If));
            assert("then"@ =~= word_text(Words::Then));
            assert("do"@ =~= word_text(Words::Do));
            assert("true"@ =~= word_text(Words::True));
            assert("false"@ =~= word_text(Words::False));
            assert("begin"@ =~= word_text(Words::Begin));
            assert("program"@ =~= word_text(Words::Program));
        }
        if chars_eq_str(&l, "define") {
            Some(Words::Define)
        } else if chars_eq_str(&l, "module") {
            Some(Words::Module)
        } else if chars_eq_str(&l, "function") {
            Some(Words::Function)
        } else if chars_eq_str(&l, "call") {
            Some(Words::Call)
        } else if chars_eq_str(&l, "equal") {
            Some(Words::Equal)
        } else if chars_eq_str(&l, "argument") {
            Some(Words::Argument)
        } else if chars_eq_str(&l, "the") {
            Some(Words::The)
        } else if chars_eq_str(&l, "with") {
            Some(Words::With)
        } else if chars_eq_str(&l, "contents") {
            Some(Words::Contents)
        } else if chars_eq_str(&l, "end") {
            Some(Words::End)
        } else if chars_eq_str(&l, "is") {
            Some(Words::Is)
        } else if chars_eq_str(&l, "to") {
            Some(Words::To)
        } else if chars_eq_str(&l, "set") {
            Some(Words::SetKw)
        } else if chars_eq_str(&l, "a") {
            Some(Words::A)
        } else if chars_eq_str(&l, "expects") {
            Some(Words::Expects)
        } else if chars_eq_str(&l, "that") {
            Some(Words::That)
        } else if chars_eq_str(&l, "returns") {
            Some(Words::Returns)
        } else if chars_eq_str(&l, "contains") {
            Some(Words::Contains)
        } else if chars_eq_str(&l, "display") {
            Some(Words::Display)
        } else if chars_eq_str(&l, "if") {
            Some(Words::If)
        } else if chars_eq_str(&l, "then") {
            Some(Words::Then)
        } else if chars_eq_str(&l, "do") {
            Some(Words::Do)
        } else if chars_eq_str(&l, "true") {
            Some(Words::True)
        } else if chars_eq_str(&l, "false") {
            Some(Words::False)
        } else if chars_eq_str(&l, "begin") {
            Some(Words::Begin)
        } else if chars_eq_str(&l, "program") {
            Some(Words::Program)
        } else {
            None
        }
    }

    /// Renders a keyword atom as its canonical uppercase spelling, the
    /// inverse of `resolve`; used for token reconstruction and for composing
    /// diagnostic messages that must show an expected keyword.
    pub fn render(self) -> (r: String)
        ensures
            r@ == word_upper(self),
    {
        match self {
            Words::Define => {
                let r = String::from_str("DEFINE");
                proof {
                    reveal_strlit("DEFINE");
                    assert(r@ =~= word_upper(Words::Define));
                }
                r
            },
            Words::Module => {
                let r = String::from_str("MODULE");
                proof {
                    reveal_strlit("MODULE");
                    assert(r@ =~= word_upper(Words::Module));
                }
                r
            },
            Words::Function => {
                let r = String::from_str("FUNCTION");
                proof {
                    reveal_strlit("FUNCTION");
                    assert(r@ =~= word_upper(Words::Function));
                }
                r
            },
            Words::Call => {
                let r = String::from_str("CALL");
                proof {
                    reveal_strlit("CALL");
                    assert(r@ =~= word_upper(Words::Call));
                }
                r
            },
            Words::Equal => {
                let r = String::from_str("EQUAL");
                proof {
                    reveal_strlit("EQUAL");
                    assert(r@ =~= word_upper(Words::Equal));
                }
                r
            },
            Words::Argument => {
                let r = String::from_str("ARGUMENT");
                proof {
                    reveal_strlit("ARGUMENT");
                    assert(r@ =~= word_upper(Words::Argument));
                }
                r
            },
            Words::The => {
                let r = String::from_str("THE");
                proof {
                    reveal_strlit("THE");
                    assert(r@ =~= word_upper(Words::The));
                }
                r
            },
            Words::With => {
                let r = String::from_str("WITH");
                proof {
                    reveal_strlit("WITH");
                    assert(r@ =~= word_upper(Words::With));
                }
                r
            },
            Words::Contents => {
                let r = String::from_str("CONTENTS");
                proof {
                    reveal_strlit("CONTENTS");
                    assert(r@ =~= word_upper(Words::Contents));
                }
                r
            },
            Words::End => {
                let r = String::from_str("END");
                proof {
                    reveal_strlit("END");
                    assert(r@ =~= word_upper(Words::End));
                }
                r
            },
            Words::Is => {
                let r = String::from_str("IS");
                proof {
                    reveal_strlit("IS");
                    assert(r@ =~= word_upper(Words::Is));
                }
                r
            },
            Words::To => {
                let r = String::from_str("TO");
                proof {
                    reveal_strlit("TO");
                    assert(r@ =~= word_upper(Words::To));
                }
                r
            },
            Words::SetKw => {
                let r = String::from_str("SET");
                proof {
                    reveal_strlit("SET");
                    assert(r@ =~= word_upper(Words::SetKw));
                }
                r
            },
            Words::A => {
                let r = String::from_str("A");
                proof {
                    reveal_strlit("A");
                    assert(r@ =~= word_upper(Words::A));
                }
                r
            },
            Words::Expects => {
                let r = String::from_str("EXPECTS");
                proof {
                    reveal_strlit("EXPECTS");
                    assert(r@ =~= word_upper(Words::Expects));
                }
                r
            },
            Words::That => {
                let r = String::from_str("THAT");
                proof {
                    reveal_strlit("THAT");
                    assert(r@ =~= word_upper(Words::That));
                }
                r
            },
            Words::Returns => {
                let r = String::from_str("RETURNS");
                proof {
                    reveal_strlit("RETURNS");
                    assert(r@ =~= word_upper(Words::Returns));
                }
                r
            },
            Words::Contains => {
                let r = String::from_str("CONTAINS");
                proof {
                    reveal_strlit("CONTAINS");
                    assert(r@ =~= word_upper(Words::Contains));
                }
                r
            },
            Words::Display => {
                let r = String::from_str("DISPLAY");
                proof {
                    reveal_strlit("DISPLAY");
                    assert(r@ =~= word_upper(Words::Display));
                }
                r
            },
            Words::If => {
                let r = String::from_str("IF");
                proof {
                    reveal_strlit("IF");
                    assert(r@ =~= word_upper(Words::If));
                }
                r
            },
            Words::Then => {
                let r = String::from_str("THEN");
                proof {
                    reveal_strlit("THEN");
                    assert(r@ =~= word_upper(Words::Then));
                }
                r
            },
            Words::Do => {
                let r = String::from_str("DO");
                proof {
                    reveal_strlit("DO");
                    assert(r@ =~= word_upper(Words::Do));
                }
                r
            },
            Words::True => {
                let r = String::from_str("TRUE");
                proof {
                    reveal_strlit("TRUE");
                    assert(r@ =~= word_upper(Words::True));
                }
                r
            },
            Words::False => {
                let r = String::from_str("FALSE");
                proof {
                    reveal_strlit("FALSE");
                    assert(r@ =~= word_upper(Words::False));
                }
                r
            },
            Words::Begin => {
                let r = String::from_str("BEGIN");
                proof {
                    reveal_strlit("BEGIN");
                    assert(r@ =~= word_upper(Words::Begin));
                }
                r
            },
            Words::Program => {
                let r = String::from_str("PROGRAM");
                proof {
                    reveal_strlit("PROGRAM");
                    assert(r@ =~= word_upper(Words::Program));
                }
                r
            },
        }
    }
}


/// Every canonical spelling is a nonempty run of lowercase ASCII letters.
pub proof fn lemma_word_text_lower(w: Words)
    ensures
        word_text(w).len() >= 1,
        forall|i: int|
            0 <= i < word_text(w).len() ==> 'a' <= #[trigger] word_text(w)[i] && word_text(w)[i]
                <= 'z',
{
    match w {
        Words::Define => {},
        Words::Module => {},
        Words::Function => {},
        Words::Call => {},
        Words::Equal => {},
        Words::Argument => {},
        Words::The => {},
        Words::With => {},
        Words::Contents => {},
        Words::End => {},
        Words::Is => {},
        Words::To => {},
        Words::SetKw => {},
        Words::A => {},
        Words::Expects => {},
        Words::That => {},
        Words::Returns => {},
        Words::Contains => {},
        Words::Display => {},
        Words::If => {},
        Words::Then => {},
        Words::Do => {},
        Words::True => {},
        Words::False => {},
        Words::Begin => {},
        Words::Program => {},
    }
}

/// The canonical uppercase spelling is a nonempty run of uppercase ASCII
/// letters, of the same length as the lowercase spelling.
pub proof fn lemma_word_upper_alpha(w: Words)
    ensures
        word_upper(w).len() == word_text(w).len(),
        word_upper(w).len() >= 1,
        forall|i: int|
            0 <= i < word_upper(w).len() ==> 'A' <= #[trigger] word_upper(w)[i] && word_upper(w)[i]
                <= 'Z',
{
    lemma_word_text_lower(w);
    assert forall|i: int|
        0 <= i < word_upper(w).len() implies 'A' <= #[trigger] word_upper(w)[i] && word_upper(w)[i]
        <= 'Z' by {
        assert(word_upper(w)[i] == upper_char(word_text(w)[i]));
        assert('a' <= word_text(w)[i] && word_text(w)[i] <= 'z');
    }
}

/// LAW: rendering is the inverse of resolution. Looking the canonical
/// uppercase spelling of any keyword atom back up in the vocabulary yields
/// exactly that atom.
pub proof fn lemma_resolve_render(w: Words)
    ensures
        spec_resolve(word_upper(w)) == Some(w),
{
    lemma_word_text_lower(w);
    assert forall|i: int|
        0 <= i < word_upper(w).len() implies #[trigger] lower_seq(word_upper(w))[i] == word_text(
        w,
    )[i] by {
        assert(word_upper(w)[i] == upper_char(word_text(w)[i]));
        assert('a' <= word_text(w)[i] && word_text(w)[i] <= 'z');
        assert(lower_char(upper_char(word_text(w)[i])) == word_text(w)[i]);
    }
    assert(lower_seq(word_upper(w)) =~= word_text(w));
    match w {
        Words::Define => {},
        Words::Module => {},
        Words::Function => {},
        Words::Call => {},
        Words::Equal => {},
        Words::Argument => {},
        Words::The => {},
        Words::With => {},
        Words::Contents => {},
        Words::End => {},
        Words::Is => {},
        Words::To => {},
        Words::SetKw => {},
        Words::A => {},
        Words::Expects => {},
        Words::That => {},
        Words::Returns => {},
        Words::Contains => {},
        Words::Display => {},
        Words::If => {},
        Words::Then => {},
        Words::Do => {},
        Words::True => {},
        Words::False => {},
        Words::Begin => {},
        Words::Program => {},
    }
}

} // verus!
