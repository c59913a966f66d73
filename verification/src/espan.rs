//! The diagnostic engine: renders a byte span plus loaded source text into a
//! labeled, colored report. Rendering shows the offending source line
//! verbatim, a caret run exactly as long as the reported span, and an
//! optional trailing label, color-coded by severity.

use vstd::prelude::*;
use std::collections::HashMap;
use crate::text::{char_repeat, push_char, push_repeat, push_slice, spec_decimal, usize_to_string};
use crate::token::Span;

verus! {

/// The severity of an annotation: errors render red, warnings yellow,
/// informational notes blue.
#[derive(Debug, Clone, Copy, PartialEq, Eq, Structural)]
pub enum AnnotationType {
    Error,
    Warning,
    Info,
}

/// One annotation: a severity, an optional label printed after the carets,
/// the span the carets cover, and the line number shown in the gutter.
#[derive(Debug, Clone, PartialEq, Eq)]
pub struct EspanAnnotation {
    pub ty: AnnotationType,
    pub label: Option<String>,
    pub span: Span,
    pub line: usize,
}

/// A diagnostic report in the making: the file's name, its character buffer,
/// and the annotations, keyed by one-based line number.
#[derive(Debug)]
pub struct ESpan {
    pub source_file_name: String,
    pub source: Vec<char>,
    pub annotations: HashMap<usize, EspanAnnotation>,
}

/// The reset code that ends every styled segment.
/// Relied-on behaviour of ansi_term: a painted string is the style's escape
/// prefix, the text, then this reset suffix.
pub open spec fn sgr_reset() -> Seq<char> {
    seq!['\u{1b}', '[', '0', 'm']
}

/// The escape prefix of a bold segment in a severity's colour: red for
/// errors, yellow for warnings, blue for informational notes.
pub open spec fn bold_prefix(ty: AnnotationType) -> Seq<char> {
    match ty {
        AnnotationType::Error => seq!['\u{1b}', '[', '1', ';', '3', '1', 'm'],
        AnnotationType::Warning => seq!['\u{1b}', '[', '1', ';', '3', '3', 'm'],
        AnnotationType::Info => seq!['\u{1b}', '[', '1', ';', '3', '4', 'm'],
    }
}

/// A piece of text painted bold in a severity's colour.
pub open spec fn painted(ty: AnnotationType, text: Seq<char>) -> Seq<char> {
    bold_prefix(ty) + text + sgr_reset()
}

/// Relies on ansi_term's `Style::paint` and the `Display` of the string it
/// returns: the rendered text is the style's escape prefix (`ESC [ 1 ; 3x m`
/// for a bold foreground colour), the text itself, then the reset suffix
/// (`ESC [ 0 m`).
#[verifier::external_body]
fn paint_bold(ty: &AnnotationType, text: &str) -> (r: String)
    ensures
        r@ == painted(*ty, text@),
{
    let colour = match ty {
        AnnotationType::Error => ansi_term::Colour::Red,
        AnnotationType::Warning => ansi_term::Colour::Yellow,
        AnnotationType::Info => ansi_term::Colour::Blue,
    };
    colour.bold().paint(text).to_string()
}

/// The number of characters from `i` up to (not including) the first newline
/// or the end of the buffer: the length of the line starting at `i`.
pub open spec fn line_len(src: Seq<char>, i: int) -> nat
    decreases src.len() - i,
{
    if 0 <= i && i < src.len() && src[i] != '\n' {
        (1 + line_len(src, i + 1)) as nat
    } else {
        0
    }
}

/// A line never reaches past the end of the buffer.
pub proof fn lemma_line_len_bound(src: Seq<char>, i: int)
    requires
        0 <= i <= src.len(),
    ensures
        i + line_len(src, i) <= src.len(),
    decreases src.len() - i,
{
    if i < src.len() && src[i] != '\n' {
        lemma_line_len_bound(src, i + 1);
    }
}

/// If no character in `[i, j)` is a newline and `j` sits at a newline or at
/// the end, the line starting at `i` is exactly `j - i` characters long.
pub proof fn lemma_line_len_exact(src: Seq<char>, i: int, j: int)
    requires
        0 <= i <= j <= src.len(),
        forall|k: int| i <= k < j ==> src[k] != '\n',
        j == src.len() || src[j] == '\n',
    ensures
        line_len(src, i) == j - i,
    decreases j - i,
{
    if i < j {
        lemma_line_len_exact(src, i + 1, j);
    }
}

/// How one source line renders: with its annotation, when one is keyed under
/// the one-based line number, the line is shown under a numbered gutter,
/// followed by a caret run exactly as long as the annotation's span and the
/// optional label; without one, the line is shown under a bare gutter.
pub open spec fn spec_render_line(
    content: Seq<char>,
    n: int,
    anns: Map<usize, EspanAnnotation>,
) -> Seq<char> {
    if anns.contains_key((n + 1) as usize) {
        let a = anns[(n + 1) as usize];
        painted(AnnotationType::Info, spec_decimal(a.line as int) + " | "@) + content + seq!['\n']
            + painted(AnnotationType::Info, "  |"@) + char_repeat(' ', a.span.start + 1) + painted(
            a.ty,
            char_repeat('^', a.span.end - a.span.start),
        ) + (match a.label {
            Some(l) => seq![' '] + painted(a.ty, l@),
            None => Seq::empty(),
        })
    } else {
        painted(AnnotationType::Info, "  | "@) + content
    }
}

/// The whole report from position `i` on, with `n` zero-based lines already
/// rendered: each line's rendering, with a newline between consecutive lines
/// and none after the last.
pub open spec fn spec_render_all(
    src: Seq<char>,
    i: int,
    n: int,
    anns: Map<usize, EspanAnnotation>,
) -> Seq<char>
    decreases src.len() - i,
{
    if !(0 <= i && i <= src.len()) {
        Seq::empty()
    } else {
        let ll = line_len(src, i) as int;
        let rendered = spec_render_line(src.subrange(i, i + ll), n, anns);
        if i + ll < src.len() {
            proof {
                lemma_line_len_bound(src, i);
            }
            rendered + seq!['\n'] + spec_render_all(src, i + ll + 1, n + 1, anns)
        } else {
            rendered
        }
    }
}

/// The full report of a loaded source buffer under a set of annotations.
pub open spec fn spec_report(src: Seq<char>, anns: Map<usize, EspanAnnotation>) -> Seq<char> {
    spec_render_all(src, 0, 0, anns)
}

impl ESpan {
    /// The buffer and every annotation's padding stay within machine limits.
    pub open spec fn wf(self) -> bool {
        self.source@.len() < usize::MAX && forall|k: usize|
            self.annotations@.contains_key(k) ==> (#[trigger] self.annotations@[k]).span.start
                < usize::MAX
    }

    /// Renders the whole report: every source line verbatim behind a colored
    /// gutter; under each annotated line, a caret run exactly as long as the
    /// annotation's span, and its label.
    #[verifier::rlimit(100)]
    pub fn render(&self) -> (r: String)
        requires
            self.wf(),
        ensures
            r@ == spec_report(self.source@, self.annotations@),
    {
        let mut out = String::new();
        let mut i: usize = 0;
        let mut n: usize = 0;
        let len = self.source.len();
        loop
            invariant
                self.wf(),
                i <= self.source@.len(),
                n <= i,
                len == self.source@.len(),
                spec_report(self.source@, self.annotations@) == out@ + spec_render_all(
                    self.source@,
                    i as int,
                    n as int,
                    self.annotations@,
                ),
            decreases self.source@.len() - i,
        {
            let mut j = i;
            while j < len && self.source[j] != '\n'
                invariant
                    i <= j <= self.source@.len(),
                    len == self.source@.len(),
                    forall|k: int| i <= k < j ==> self.source@[k] != '\n',
                decreases self.source@.len() - j,
            {
                j = j + 1;
            }
            proof {
                lemma_line_len_exact(self.source@, i as int, j as int);
            }
            let ghost out0 = out@;
            let ghost content = self.source@.subrange(i as int, j as int);
            let key = n + 1;
            match self.annotations.get(&key) {
                Some(a) => {
                    let mut gutter = usize_to_string(a.line);
                    gutter.append(" | ");
                    let painted_gutter = paint_bold(&AnnotationType::Info, gutter.as_str());
                    out.append(painted_gutter.as_str());
                    push_slice(&mut out, &self.source, i, j);
                    push_char(&mut out, '\n');
                    let bar = paint_bold(&AnnotationType::Info, "  |");
                    out.append(bar.as_str());
                    push_repeat(&mut out, ' ', a.span.start + 1);
                    let count = if a.span.end >= a.span.start {
                        a.span.end - a.span.start
                    } else {
                        0
                    };
                    let mut carets = String::new();
                    push_repeat(&mut carets, '^', count);
                    let painted_carets = paint_bold(&a.ty, carets.as_str());
                    out.append(painted_carets.as_str());
                    match &a.label {
                        Some(l) => {
                            push_char(&mut out, ' ');
                            let painted_label = paint_bold(&a.ty, l.as_str());
                            out.append(painted_label.as_str());
                        },
                        None => {},
                    }
                    proof {
                        assert(out@ =~= out0 + spec_render_line(
                            content,
                            n as int,
                            self.annotations@,
                        ));
                    }
                },
                None => {
                    let painted_gutter = paint_bold(&AnnotationType::Info, "  | ");
                    out.append(painted_gutter.as_str());
                    push_slice(&mut out, &self.source, i, j);
                    proof {
                        assert(out@ =~= out0 + spec_render_line(
                            content,
                            n as int,
                            self.annotations@,
                        ));
                    }
                },
            }
            if j < len {
                push_char(&mut out, '\n');
                i = j + 1;
                n = n + 1;
                proof {
                    assert(out@ =~= out0 + (spec_render_line(
                        content,
                        n as int - 1,
                        self.annotations@,
                    ) + seq!['\n']));
                }
            } else {
                proof {
                    assert(spec_report(self.source@, self.annotations@) =~= out@);
                }
                return out;
            }
        }
    }
}


/// One sequence occurs inside another as one contiguous run.
pub open spec fn contains_run(hay: Seq<char>, needle: Seq<char>) -> bool {
    exists|p: int|
        0 <= p && p + needle.len() <= hay.len() && #[trigger] hay.subrange(p, p + needle.len())
            == needle
}

/// A run at a known position is contained.
pub proof fn lemma_run_at(hay: Seq<char>, needle: Seq<char>, p: int)
    requires
        0 <= p,
        p + needle.len() <= hay.len(),
        hay.subrange(p, p + needle.len()) == needle,
    ensures
        contains_run(hay, needle),
{
}

/// A run contained on the left of a concatenation is contained in the whole.
pub proof fn lemma_contains_left(a: Seq<char>, b: Seq<char>, x: Seq<char>)
    requires
        contains_run(a, x),
    ensures
        contains_run(a + b, x),
{
    let p = choose|p: int|
        0 <= p && p + x.len() <= a.len() && #[trigger] a.subrange(p, p + x.len()) == x;
    assert((a + b).subrange(p, p + x.len()) =~= a.subrange(p, p + x.len()));
    lemma_run_at(a + b, x, p);
}

/// A run contained on the right of a concatenation is contained in the whole.
pub proof fn lemma_contains_right(a: Seq<char>, b: Seq<char>, x: Seq<char>)
    requires
        contains_run(b, x),
    ensures
        contains_run(a + b, x),
{
    let p = choose|p: int|
        0 <= p && p + x.len() <= b.len() && #[trigger] b.subrange(p, p + x.len()) == x;
    assert((a + b).subrange(a.len() + p, a.len() + p + x.len()) =~= b.subrange(p, p + x.len()));
    lemma_run_at(a + b, x, a.len() + p);
}

/// An annotated line's rendering contains the line's text verbatim and a
/// caret run exactly as long as the annotation's span.
proof fn lemma_line_shows(content: Seq<char>, n: int, anns: Map<usize, EspanAnnotation>)
    requires
        anns.contains_key((n + 1) as usize),
    ensures
        contains_run(spec_render_line(content, n, anns), content),
        contains_run(
            spec_render_line(content, n, anns),
            char_repeat(
                '^',
                anns[(n + 1) as usize].span.end - anns[(n + 1) as usize].span.start,
            ),
        ),
{
    let a = anns[(n + 1) as usize];
    let g = painted(AnnotationType::Info, spec_decimal(a.line as int) + " | "@);
    let bar = painted(AnnotationType::Info, "  |"@);
    let pad = char_repeat(' ', a.span.start + 1);
    let carets = char_repeat('^', a.span.end - a.span.start);
    let pc = painted(a.ty, carets);
    let lbl = (match a.label {
        Some(l) => seq![' '] + painted(a.ty, l@),
        None => Seq::<char>::empty(),
    });
    let whole = spec_render_line(content, n, anns);
    assert(whole == g + content + seq!['\n'] + bar + pad + pc + lbl);
    // the line text sits right after the gutter
    assert((g + content).subrange(g.len() as int, (g.len() + content.len()) as int) =~= content);
    lemma_run_at(g + content, content, g.len() as int);
    lemma_contains_left(g + content, seq!['\n'], content);
    lemma_contains_left(g + content + seq!['\n'], bar, content);
    lemma_contains_left(g + content + seq!['\n'] + bar, pad, content);
    lemma_contains_left(g + content + seq!['\n'] + bar + pad, pc, content);
    lemma_contains_left(g + content + seq!['\n'] + bar + pad + pc, lbl, content);
    // the caret run sits inside its painted segment
    assert(pc == bold_prefix(a.ty) + carets + sgr_reset());
    assert((bold_prefix(a.ty) + carets).subrange(
        bold_prefix(a.ty).len() as int,
        (bold_prefix(a.ty).len() + carets.len()) as int,
    ) =~= carets);
    lemma_run_at(bold_prefix(a.ty) + carets, carets, bold_prefix(a.ty).len() as int);
    lemma_contains_left(bold_prefix(a.ty) + carets, sgr_reset(), carets);
    lemma_contains_right(g + content + seq!['\n'] + bar + pad, pc, carets);
    lemma_contains_left(g + content + seq!['\n'] + bar + pad + pc, lbl, carets);
}

/// The position where the `k`-th line after position `i` starts.
pub open spec fn line_start(src: Seq<char>, i: int, k: int) -> int
    decreases k,
{
    if k <= 0 {
        i
    } else {
        line_start(src, i + line_len(src, i) as int + 1, k - 1)
    }
}

/// Whether a `k`-th line after position `i` exists: every earlier line ends
/// in a newline inside the buffer.
pub open spec fn has_line(src: Seq<char>, i: int, k: int) -> bool
    decreases k,
{
    if k <= 0 {
        true
    } else {
        i + line_len(src, i) < src.len() && has_line(src, i + line_len(src, i) as int + 1, k - 1)
    }
}

/// The text of the `k`-th line after position `i`.
pub open spec fn line_at(src: Seq<char>, i: int, k: int) -> Seq<char> {
    src.subrange(
        line_start(src, i, k),
        line_start(src, i, k) + line_len(src, line_start(src, i, k)) as int,
    )
}

/// The report from `(i, n)` on contains the `k`-th remaining line verbatim,
/// and a caret run exactly as long as that line's annotation's span.
proof fn lemma_render_all_shows(
    src: Seq<char>,
    i: int,
    n: int,
    anns: Map<usize, EspanAnnotation>,
    k: int,
)
    requires
        0 <= i <= src.len(),
        0 <= n,
        0 <= k,
        has_line(src, i, k),
        anns.contains_key((n + k + 1) as usize),
        n + k + 1 <= usize::MAX,
    ensures
        contains_run(spec_render_all(src, i, n, anns), line_at(src, i, k)),
        contains_run(
            spec_render_all(src, i, n, anns),
            char_repeat(
                '^',
                anns[(n + k + 1) as usize].span.end - anns[(n + k + 1) as usize].span.start,
            ),
        ),
    decreases k,
{
    lemma_line_len_bound(src, i);
    let ll = line_len(src, i) as int;
    let content = src.subrange(i, i + ll);
    let rendered = spec_render_line(content, n, anns);
    if k == 0 {
        lemma_line_shows(content, n, anns);
        if i + ll < src.len() {
            lemma_contains_left(rendered, seq!['\n'], content);
            lemma_contains_left(
                rendered + seq!['\n'],
                spec_render_all(src, i + ll + 1, n + 1, anns),
                content,
            );
            let carets = char_repeat(
                '^',
                anns[(n + 1) as usize].span.end - anns[(n + 1) as usize].span.start,
            );
            lemma_contains_left(rendered, seq!['\n'], carets);
            lemma_contains_left(
                rendered + seq!['\n'],
                spec_render_all(src, i + ll + 1, n + 1, anns),
                carets,
            );
        }
    } else {
        lemma_render_all_shows(src, i + ll + 1, n + 1, anns, k - 1);
        let rest = spec_render_all(src, i + ll + 1, n + 1, anns);
        lemma_contains_right(seq!['\n'], rest, line_at(src, i + ll + 1, k - 1));
        lemma_contains_right(rendered, seq!['\n'] + rest, line_at(src, i + ll + 1, k - 1));
        assert(rendered + seq!['\n'] + rest =~= rendered + (seq!['\n'] + rest));
        assert(line_at(src, i, k) == line_at(src, i + ll + 1, k - 1));
        let carets = char_repeat(
            '^',
            anns[(n + k + 1) as usize].span.end - anns[(n + k + 1) as usize].span.start,
        );
        lemma_contains_right(seq!['\n'], rest, carets);
        lemma_contains_right(rendered, seq!['\n'] + rest, carets);
    }
}

/// LAW: a diagnostic for a known error always includes the offending source
/// line's text verbatim, and a caret run whose length equals exactly the
/// length of the reported span. Here `k` is the zero-based index of the
/// annotated line and the annotation is filed under the one-based key
/// `k + 1`, as the tokenizer's and parser's error annotations file them.
pub proof fn lemma_report_shows_line_and_carets(
    src: Seq<char>,
    anns: Map<usize, EspanAnnotation>,
    k: int,
)
    requires
        0 <= k,
        k + 1 <= usize::MAX,
        has_line(src, 0, k),
        anns.contains_key((k + 1) as usize),
    ensures
        contains_run(spec_report(src, anns), line_at(src, 0, k)),
        contains_run(
            spec_report(src, anns),
            char_repeat(
                '^',
                anns[(k + 1) as usize].span.end - anns[(k + 1) as usize].span.start,
            ),
        ),
{
    lemma_render_all_shows(src, 0, 0, anns, k);
}

} // verus!
