//! The token stream produced by the tokenizer, and its reconstruction back
//! into source-like text.

use vstd::prelude::*;
use vstd::string::StringExecFns;
use crate::text::push_char;
use crate::text::push_slice;
use crate::lexer::{
    alpha_run_len, is_ascii_alpha, lemma_alpha_run_exact, lemma_alpha_run_len_bound,
    lemma_lex_step_next, lemma_str_body_chars, lemma_str_body_exact, lemma_str_body_len_bound,
    lex_step, opt_tok_seq, punct_token, spec_lex, str_body_len,
};
use crate::token::{Span, Token, Tokens, spec_token_text};
use crate::words::{Word, lemma_resolve_render, lemma_word_upper_alpha, spec_resolve, word_upper};

verus! {

/// The ordered token stream for one source file.
#[derive(Debug, Clone, PartialEq, Eq)]
pub struct AST {
    pub ast: Vec<Token>,
}

/// The literal content a token's span selects from the source buffer, or the
/// empty sequence when the token records no usable span.
pub open spec fn token_content(t: Token, src: Seq<char>) -> Seq<char> {
    match t.location.span {
        Some(span) => if span.in_bounds(src.len() as int) {
            src.subrange(span.start as int, span.end as int)
        } else {
            Seq::empty()
        },
        None => Seq::empty(),
    }
}

/// The text one token renders back to: quoted literal content for a string
/// token, the display text of the kind otherwise.
pub open spec fn spec_render_token(t: Token, src: Seq<char>) -> Seq<char> {
    if t.inner is String {
        seq!['"'] + token_content(t, src) + seq!['"']
    } else {
        spec_token_text(t.inner)
    }
}

/// The reconstruction of a whole token stream: each token's text followed by
/// one space.
pub open spec fn spec_reconstruct(toks: Seq<Token>, src: Seq<char>) -> Seq<char>
    decreases toks.len(),
{
    if toks.len() == 0 {
        Seq::empty()
    } else {
        spec_render_token(toks[0], src) + seq![' '] + spec_reconstruct(toks.drop_first(), src)
    }
}

impl AST {
    /// Renders every token back to text, via the vocabulary for keywords and
    /// via the source buffer for string literal content, with one space after
    /// each token.
    pub fn reconstruct(&self, source: &Vec<char>) -> (r: String)
        ensures
            r@ == spec_reconstruct(self.ast@, source@),
    {
        let mut r = String::new();
        let mut i: usize = 0;
        while i < self.ast.len()
            invariant
                i <= self.ast@.len(),
                r@ == spec_reconstruct(self.ast@.take(i as int), source@),
            decreases self.ast@.len() - i,
        {
            let t = &self.ast[i];
            match t.inner {
                Tokens::String => {
                    push_char(&mut r, '"');
                    if let Some(span) = t.location.span {
                        if span.start <= span.end && span.end <= source.len() {
                            push_slice(&mut r, source, span.start, span.end);
                        }
                    }
                    push_char(&mut r, '"');
                },
                Tokens::Word(word) => {
                    let text = word.which.render();
                    r.append(text.as_str());
                },
                Tokens::SemiColon => r.append(";"),
                Tokens::Colon => r.append(":"),
                Tokens::DollarSign => r.append("$"),
                Tokens::Period => r.append("."),
            }
            push_char(&mut r, ' ');
            i = i + 1;
            proof {
                lemma_reconstruct_take_step(self.ast@, source@, i as int);
                assert(r@ =~= spec_reconstruct(self.ast@.take(i as int), source@));
            }
        }
        proof {
            assert(self.ast@.take(self.ast@.len() as int) =~= self.ast@);
        }
        r
    }
}

/// Reconstructing the first `i` tokens is reconstructing the first `i - 1`
/// and then rendering token `i - 1`.
proof fn lemma_reconstruct_take_step(toks: Seq<Token>, src: Seq<char>, i: int)
    requires
        0 < i <= toks.len(),
    ensures
        spec_reconstruct(toks.take(i), src) == spec_reconstruct(toks.take(i - 1), src)
            + spec_render_token(toks[i - 1], src) + seq![' '],
    decreases i,
{
    if i == 1 {
        assert(toks.take(1).drop_first() =~= Seq::<Token>::empty());
        assert(toks.take(0) =~= Seq::<Token>::empty());
        assert(spec_reconstruct(toks.take(1), src) =~= spec_reconstruct(toks.take(0), src)
            + spec_render_token(toks[0], src) + seq![' ']);
    } else {
        lemma_reconstruct_take_step(toks.drop_first(), src, i - 1);
        assert(toks.take(i).drop_first() =~= toks.drop_first().take(i - 1));
        assert(toks.take(i - 1).drop_first() =~= toks.drop_first().take(i - 2));
        assert(spec_reconstruct(toks.take(i), src) == spec_render_token(toks[0], src) + seq![' ']
            + spec_reconstruct(toks.drop_first().take(i - 1), src));
        assert(spec_reconstruct(toks.take(i), src) =~= spec_reconstruct(toks.take(i - 1), src)
            + spec_render_token(toks[i - 1], src) + seq![' ']);
    }
}

/// The kinds of a token stream, in order, locations stripped.
pub open spec fn kinds(toks: Seq<Token>) -> Seq<Tokens> {
    toks.map_values(|t: Token| t.inner)
}

/// A token the reconstruction round trip is stated over: keyword occurrences
/// carry no plural flag (the tokenizer never sets one), and a string
/// literal's content contains no quote and no newline (either would have
/// ended the literal at tokenization time).
pub open spec fn valid_token(t: Token, src: Seq<char>) -> bool {
    match t.inner {
        Tokens::Word(w) => !w.plural,
        Tokens::String => {
            let c = token_content(t, src);
            forall|k: int| 0 <= k < c.len() ==> c[k] != '"' && c[k] != '\n'
        },
        _ => true,
    }
}

/// Every token of the stream is valid for reconstruction.
pub open spec fn valid_tokens(toks: Seq<Token>, src: Seq<char>) -> bool {
    forall|i: int| 0 <= i < toks.len() ==> valid_token(#[trigger] toks[i], src)
}

/// Two buffers agree from the given positions to their ends.
pub open spec fn suffix_eq(s1: Seq<char>, i1: int, s2: Seq<char>, i2: int) -> bool {
    &&& s1.len() - i1 == s2.len() - i2
    &&& forall|d: int| 0 <= d < s1.len() - i1 ==> s1[i1 + d] == #[trigger] s2[i2 + d]
}

/// Equal suffixes have equal maximal letter runs.
proof fn lemma_alpha_run_suffix(s1: Seq<char>, i1: int, s2: Seq<char>, i2: int)
    requires
        0 <= i1 <= s1.len(),
        0 <= i2 <= s2.len(),
        suffix_eq(s1, i1, s2, i2),
    ensures
        alpha_run_len(s1, i1) == alpha_run_len(s2, i2),
    decreases s1.len() - i1,
{
    if i1 < s1.len() {
        assert(s1[i1 + 0] == s2[i2 + 0]);
        assert(s1[i1] == s2[i2]);
        if is_ascii_alpha(s1[i1]) {
            assert(suffix_eq(s1, i1 + 1, s2, i2 + 1)) by {
                assert forall|d: int| 0 <= d < s1.len() - (i1 + 1) implies s1[i1 + 1 + d]
                    == #[trigger] s2[i2 + 1 + d] by {
                    assert(s1[i1 + (d + 1)] == s2[i2 + (d + 1)]);
                }
            }
            lemma_alpha_run_suffix(s1, i1 + 1, s2, i2 + 1);
        }
    }
}

/// Equal suffixes have equal string-body lengths.
proof fn lemma_str_body_suffix(s1: Seq<char>, i1: int, s2: Seq<char>, i2: int)
    requires
        0 <= i1 <= s1.len(),
        0 <= i2 <= s2.len(),
        suffix_eq(s1, i1, s2, i2),
    ensures
        str_body_len(s1, i1) == str_body_len(s2, i2),
    decreases s1.len() - i1,
{
    if i1 < s1.len() {
        assert(s1[i1 + 0] == s2[i2 + 0]);
        assert(s1[i1] == s2[i2]);
        if s1[i1] != '"' && s1[i1] != '\n' {
            assert(suffix_eq(s1, i1 + 1, s2, i2 + 1)) by {
                assert forall|d: int| 0 <= d < s1.len() - (i1 + 1) implies s1[i1 + 1 + d]
                    == #[trigger] s2[i2 + 1 + d] by {
                    assert(s1[i1 + (d + 1)] == s2[i2 + (d + 1)]);
                }
            }
            lemma_str_body_suffix(s1, i1 + 1, s2, i2 + 1);
        }
    }
}

/// The kinds of a singleton-plus-rest stream.
proof fn lemma_kinds_cons(t: Token, rest: Seq<Token>)
    ensures
        kinds(seq![t] + rest) == seq![t.inner] + kinds(rest),
{
    assert(kinds(seq![t] + rest) =~= seq![t.inner] + kinds(rest));
}

/// What the tokenizer makes of a buffer depends, up to token locations, only
/// on the text from the cursor on: equal suffixes tokenize to the same kinds
/// and agree on whether an error occurs.
#[verifier::rlimit(100)]
proof fn lemma_lex_kinds_suffix(
    s1: Seq<char>,
    i1: int,
    l1: int,
    s2: Seq<char>,
    i2: int,
    l2: int,
)
    requires
        0 <= i1 <= s1.len(),
        0 <= i2 <= s2.len(),
        suffix_eq(s1, i1, s2, i2),
    ensures
        kinds(spec_lex(s1, i1, l1).0) == kinds(spec_lex(s2, i2, l2).0),
        spec_lex(s1, i1, l1).1 is None <==> spec_lex(s2, i2, l2).1 is None,
    decreases s1.len() - i1,
{
    if i1 < s1.len() {
        let c = s1[i1];
        assert(s1[i1 + 0] == s2[i2 + 0]);
        assert(s2[i2] == c);
        assert forall|k: int| 1 <= k <= s1.len() - i1 implies #[trigger] suffix_eq(s1, i1 + k, s2, i2 + k) by {
            assert forall|d: int| 0 <= d < s1.len() - (i1 + k) implies s1[i1 + k + d]
                == #[trigger] s2[i2 + k + d] by {
                assert(s1[i1 + (k + d)] == s2[i2 + (k + d)]);
            }
        }
        let st1 = lex_step(s1, i1, l1);
        let st2 = lex_step(s2, i2, l2);
        if c == ' ' || c == '\n' {
            assert(suffix_eq(s1, i1 + 1, s2, i2 + 1));
            lemma_lex_kinds_suffix(s1, i1 + 1, st1.next_line, s2, i2 + 1, st2.next_line);
            assert(kinds(spec_lex(s1, i1, l1).0) == kinds(spec_lex(s2, i2, l2).0));
            assert(spec_lex(s1, i1, l1).1 is None <==> spec_lex(s2, i2, l2).1 is None);
        } else if c == ':' || c == ';' || c == '$' || c == '.' {
            assert(suffix_eq(s1, i1 + 1, s2, i2 + 1));
            lemma_lex_kinds_suffix(s1, i1 + 1, l1, s2, i2 + 1, l2);
            lemma_kinds_cons(st1.token->Some_0, spec_lex(s1, i1 + 1, l1).0);
            lemma_kinds_cons(st2.token->Some_0, spec_lex(s2, i2 + 1, l2).0);
            assert(kinds(spec_lex(s1, i1, l1).0) == kinds(spec_lex(s2, i2, l2).0));
            assert(spec_lex(s1, i1, l1).1 is None <==> spec_lex(s2, i2, l2).1 is None);
        } else if c == '"' {
            lemma_str_body_suffix(s1, i1 + 1, s2, i2 + 1);
            let body = str_body_len(s1, i1 + 1) as int;
            lemma_str_body_len_bound(s1, i1 + 1);
            if i1 + 1 + body < s1.len() && s1[i1 + 1 + body] == '"' {
                assert(s2[i2 + (1 + body)] == s1[i1 + (1 + body)]);
                assert(suffix_eq(s1, i1 + (2 + body), s2, i2 + (2 + body)));
                lemma_lex_kinds_suffix(s1, i1 + 2 + body, l1, s2, i2 + 2 + body, l2);
                lemma_kinds_cons(st1.token->Some_0, spec_lex(s1, i1 + 2 + body, l1).0);
                lemma_kinds_cons(st2.token->Some_0, spec_lex(s2, i2 + 2 + body, l2).0);
            assert(kinds(spec_lex(s1, i1, l1).0) == kinds(spec_lex(s2, i2, l2).0));
            assert(spec_lex(s1, i1, l1).1 is None <==> spec_lex(s2, i2, l2).1 is None);
            } else {
                if i1 + 1 + body < s1.len() {
                    assert(s2[i2 + (1 + body)] == s1[i1 + (1 + body)]);
                }
            assert(kinds(spec_lex(s1, i1, l1).0) == kinds(spec_lex(s2, i2, l2).0));
            assert(spec_lex(s1, i1, l1).1 is None <==> spec_lex(s2, i2, l2).1 is None);
            }
        } else if is_ascii_alpha(c) {
            lemma_alpha_run_suffix(s1, i1 + 1, s2, i2 + 1);
            let n = 1 + alpha_run_len(s1, i1 + 1) as int;
            lemma_alpha_run_len_bound(s1, i1 + 1);
            assert(s1.subrange(i1, i1 + n) =~= s2.subrange(i2, i2 + n)) by {
                assert forall|d: int| 0 <= d < n implies s1.subrange(i1, i1 + n)[d]
                    == #[trigger] s2.subrange(i2, i2 + n)[d] by {
                    assert(s1[i1 + d] == s2[i2 + d]);
                }
            }
            match spec_resolve(s1.subrange(i1, i1 + n)) {
                Some(w) => {
                    assert(suffix_eq(s1, i1 + n, s2, i2 + n));
                    lemma_lex_kinds_suffix(s1, i1 + n, l1, s2, i2 + n, l2);
                    lemma_kinds_cons(st1.token->Some_0, spec_lex(s1, i1 + n, l1).0);
                    lemma_kinds_cons(st2.token->Some_0, spec_lex(s2, i2 + n, l2).0);
            assert(kinds(spec_lex(s1, i1, l1).0) == kinds(spec_lex(s2, i2, l2).0));
            assert(spec_lex(s1, i1, l1).1 is None <==> spec_lex(s2, i2, l2).1 is None);
                },
                None => {
            assert(kinds(spec_lex(s1, i1, l1).0) == kinds(spec_lex(s2, i2, l2).0));
            assert(spec_lex(s1, i1, l1).1 is None <==> spec_lex(s2, i2, l2).1 is None);
                },
            }
        } else {
        }
    } else {
        assert(kinds(spec_lex(s1, i1, l1).0) =~= kinds(spec_lex(s2, i2, l2).0));
    }
}

/// One rendered token, followed by the space the reconstruction writes after
/// it and then anything at all, tokenizes back to exactly its own kind
/// before tokenization continues after the space.
proof fn lemma_render_token_step(t: Token, src: Seq<char>, tail: Seq<char>, line: int)
    requires
        valid_token(t, src),
    ensures
        ({
            let rt = spec_render_token(t, src);
            let full = rt + seq![' '] + tail;
            let m = rt.len() + 1;
            &&& kinds(spec_lex(full, 0, line).0) == seq![t.inner] + kinds(
                spec_lex(full, m as int, line).0,
            )
            &&& spec_lex(full, 0, line).1 == spec_lex(full, m as int, line).1
        }),
{
    let rt = spec_render_token(t, src);
    let full = rt + seq![' '] + tail;
    let m = rt.len() as int + 1;
    match t.inner {
        Tokens::SemiColon | Tokens::Colon | Tokens::DollarSign | Tokens::Period => {
            reveal_strlit(";");
            reveal_strlit(":");
            reveal_strlit("$");
            reveal_strlit(".");
            assert(rt.len() == 1);
            assert(full[0] == rt[0]);
            assert(full[1] == ' ');
            let st = lex_step(full, 0, line);
            assert(st.token == Some(punct_token(t.inner, 0, line)));
            assert(spec_lex(full, 1, line) == spec_lex(full, 2, line));
            lemma_kinds_cons(st.token->Some_0, spec_lex(full, 1, line).0);
        },
        Tokens::Word(word) => {
            let w = word.which;
            lemma_word_upper_alpha(w);
            let n = word_upper(w).len() as int;
            assert forall|k: int| 0 <= k < n implies is_ascii_alpha(#[trigger] full[k]) by {
                assert(full[k] == word_upper(w)[k]);
            }
            assert(full[n] == ' ');
            lemma_alpha_run_exact(full, 1, n);
            assert(full.subrange(0, n) =~= word_upper(w));
            lemma_resolve_render(w);
            let st = lex_step(full, 0, line);
            assert(st.token->Some_0.inner == Tokens::Word(Word { which: w, plural: false }));
            assert(st.token->Some_0.inner == t.inner);
            assert(st.next == n);
            assert(spec_lex(full, n, line) == spec_lex(full, n + 1, line));
            lemma_kinds_cons(st.token->Some_0, spec_lex(full, n, line).0);
        },
        Tokens::String => {
            let content = token_content(t, src);
            let cn = content.len() as int;
            assert(full[0] == '"');
            assert forall|k: int| 1 <= k < 1 + cn implies #[trigger] full[k] != '"' && full[k]
                != '\n' by {
                assert(full[k] == content[k - 1]);
            }
            assert(full[1 + cn] == '"');
            lemma_str_body_exact(full, 1, 1 + cn);
            assert(full[2 + cn] == ' ');
            let st = lex_step(full, 0, line);
            assert(st.token->Some_0.inner == Tokens::String);
            assert(st.next == 2 + cn);
            assert(m == 3 + cn);
            assert(spec_lex(full, 2 + cn, line) == spec_lex(full, 3 + cn, line));
            lemma_kinds_cons(st.token->Some_0, spec_lex(full, 2 + cn, line).0);
        },
    }
}

/// LAW: for any valid token stream, re-rendering each token — keywords via
/// the vocabulary, string literals from their recorded spans — and
/// re-tokenizing the result reproduces the identical sequence of token kinds
/// (whitespace aside), with no tokenization error.
pub proof fn lemma_reconstruct_relex(toks: Seq<Token>, src: Seq<char>)
    requires
        valid_tokens(toks, src),
    ensures
        spec_lex(spec_reconstruct(toks, src), 0, 0).1 is None,
        kinds(spec_lex(spec_reconstruct(toks, src), 0, 0).0) == kinds(toks),
    decreases toks.len(),
{
    if toks.len() == 0 {
        assert(kinds(spec_lex(spec_reconstruct(toks, src), 0, 0).0) =~= kinds(toks));
    } else {
        let t = toks[0];
        let rest = toks.drop_first();
        let rt = spec_render_token(t, src);
        let tail = spec_reconstruct(rest, src);
        let full = spec_reconstruct(toks, src);
        assert(full == rt + seq![' '] + tail);
        assert(valid_token(t, src));
        lemma_render_token_step(t, src, tail, 0);
        let m = rt.len() as int + 1;
        assert(suffix_eq(full, m, tail, 0)) by {
            assert forall|d: int| 0 <= d < full.len() - m implies full[m + d]
                == #[trigger] tail[0 + d] by {
                assert(full[m + d] == ((rt + seq![' ']) + tail)[m + d]);
            }
        }
        lemma_lex_kinds_suffix(full, m, 0, tail, 0, 0);
        assert(valid_tokens(rest, src)) by {
            assert forall|i: int| 0 <= i < rest.len() implies valid_token(
                #[trigger] rest[i],
                src,
            ) by {
                assert(rest[i] == toks[i + 1]);
            }
        }
        lemma_reconstruct_relex(rest, src);
        lemma_kinds_cons(t, rest);
        assert(seq![t] + rest =~= toks);
    }
}

/// Every token stream the tokenizer produces is valid for reconstruction:
/// keyword occurrences carry no plural flag, and a string literal's recorded
/// content holds no quote and no newline. Together with the round-trip law,
/// re-rendering and re-tokenizing any tokenizer output reproduces its kinds.
pub proof fn lemma_lex_tokens_valid(src: Seq<char>, i: int, line: int)
    requires
        src.len() <= usize::MAX,
    ensures
        valid_tokens(spec_lex(src, i, line).0, src),
    decreases src.len() - i,
{
    if 0 <= i && i < src.len() {
        let st = lex_step(src, i, line);
        if st.err is None {
            lemma_lex_step_next(src, i, line);
            lemma_str_body_len_bound(src, i + 1);
            lemma_str_body_chars(src, i + 1);
            lemma_lex_tokens_valid(src, st.next, st.next_line);
            let toks = spec_lex(src, i, line).0;
            let rest = spec_lex(src, st.next, st.next_line).0;
            assert forall|k: int| 0 <= k < toks.len() implies valid_token(
                #[trigger] toks[k],
                src,
            ) by {
                match st.token {
                    Some(t) => {
                        if k == 0 {
                            assert(toks[0] == t);
                            if src[i] == '"' {
                                let body = str_body_len(src, i + 1) as int;
                                let c = token_content(t, src);
                                assert(c =~= src.subrange(i + 1, i + 1 + body));
                                assert forall|m: int| 0 <= m < c.len() implies #[trigger] c[m]
                                    != '"' && c[m] != '\n' by {
                                    assert(c[m] == src[i + 1 + m]);
                                }
                            }
                            assert(valid_token(t, src));
                        } else {
                            assert(toks[k] == rest[k - 1]);
                            assert(valid_token(rest[k - 1], src));
                        }
                    },
                    None => {
                        assert(toks[k] == rest[k]);
                        assert(valid_token(rest[k], src));
                    },
                }
            }
        }
    }
}

} // verus!
