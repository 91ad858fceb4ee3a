//! The tokenizer of the bracketed textual form: brackets, braces, colon,
//! comma, numbers, quoted strings with a small escape set, and the three
//! keywords.  Failures carry a rendered diagnostic that points into the
//! input.

use vstd::prelude::*;
use crate::strutil::{str_concat, string_push_char, string_to_chars};

verus! {

/// What rendering a diagnostic over an input yields: a function of the
/// input, the message, the span, and the span's label, and of nothing
/// else.
pub uninterp spec fn rendered_diag(
    input: Seq<char>,
    message: Seq<char>,
    start: int,
    end: int,
    label: Seq<char>,
) -> Seq<char>;

/// Relies on codespan-reporting's `term::emit_into_string` with the
/// default configuration: it renders a primary-labelled error diagnostic
/// over the input into plain text, deterministically.
#[verifier::external_body]
fn render_diagnostic(input: &str, message: &str, start: usize, end: usize, label: &str) -> (r:
    String)
    ensures
        r@ == rendered_diag(input@, message@, start as int, end as int, label@),
{
    let file = codespan_reporting::files::SimpleFile::new("input", input);
    let diag = codespan_reporting::diagnostic::Diagnostic::error().with_message(message)
        .with_labels(
        vec![codespan_reporting::diagnostic::Label::primary((), start..end).with_message(label)],
    );
    let config = codespan_reporting::term::Config::default();
    codespan_reporting::term::emit_into_string(&config, &file, &diag).unwrap_or_default()
}

/// One token of the bracketed form.
#[derive(Debug, PartialEq, Eq)]
pub enum Token {
    LBracket,
    RBracket,
    LBrace,
    RBrace,
    Colon,
    Comma,
    Num(u64),
    Str(String),
    Bool(bool),
    Null,
}

/// The tokenizer: a cursor over the input's characters, the tokens read so
/// far, and the input kept whole for diagnostics.
pub struct Tokenizer {
    chars: Vec<char>,
    pos: usize,
    tokens: Vec<Token>,
    input: String,
}

impl Tokenizer {
    /// The cursor has not run past the input.
    pub closed spec fn wf(&self) -> bool {
        self.pos <= self.chars@.len()
    }

    /// The characters being tokenized.
    pub closed spec fn input_chars(&self) -> Seq<char> {
        self.chars@
    }

    /// Where the cursor stands.
    pub closed spec fn cursor(&self) -> nat {
        self.pos as nat
    }

    /// A tokenizer at the start of the input.
    pub fn new(s: &str) -> (r: Self)
        ensures
            r.wf(),
    {
        Tokenizer { chars: string_to_chars(s), pos: 0, tokens: Vec::new(), input: s.to_owned() }
    }

    /// Render an error diagnostic over the input.
    fn format_diagnostic(&self, message: &str, start: usize, end: usize, label: &str) -> (r:
        String)
        ensures
            r@ == rendered_diag(
                self.input@,
                message@,
                start as int,
                end as int,
                label@,
            ),
    {
        render_diagnostic(self.input.as_str(), message, start, end, label)
    }

    /// Consume exactly the expected character, or fail with a diagnostic.
    fn consume(&mut self, c: char) -> (r: Result<(), String>)
        requires
            old(self).wf(),
        ensures
            final(self).wf(),
            final(self).chars == old(self).chars,
            final(self).input == old(self).input,
            r is Ok ==> final(self).pos == old(self).pos + 1,
    {
        let n = self.chars.len();
        if self.pos >= n {
            let mut label = String::new();
            string_push_char(&mut label, '`');
            string_push_char(&mut label, c);
            let label = str_concat(label.as_str(), "` was expected");
            let e = if n < usize::MAX {
                n + 1
            } else {
                n
            };
            return Err(self.format_diagnostic("Unexpected end of input", n, e, label.as_str()));
        }
        let got = self.chars[self.pos];
        if got == c {
            self.pos = self.pos + 1;
            Ok(())
        } else {
            let mut label = String::new();
            string_push_char(&mut label, '`');
            string_push_char(&mut label, c);
            let label = str_concat(label.as_str(), "` was expected, but `");
            let mut label2 = label;
            string_push_char(&mut label2, got);
            let label2 = str_concat(label2.as_str(), "` is here");
            Err(self.format_diagnostic("Unexpected input", self.pos, self.pos + 1, label2.as_str()))
        }
    }

    /// Consume exactly the expected characters, or fail with a diagnostic.
    pub fn consume_str(&mut self, s: &str) -> (r: Result<(), String>)
        requires
            old(self).wf(),
        ensures
            final(self).wf(),
            final(self).input_chars() == old(self).input_chars(),
            r is Ok ==> final(self).cursor() == old(self).cursor() + s@.len(),
    {
        let expected = string_to_chars(s);
        let n = expected.len();
        let mut i: usize = 0;
        while i < n
            invariant
                self.wf(),
                i <= n,
                n == s@.len(),
                expected@ == s@,
                self.chars == old(self).chars,
                self.input == old(self).input,
                self.pos == old(self).pos + i,
            decreases n - i,
        {
            match self.consume(expected[i]) {
                Ok(_) => (),
                Err(e) => {
                    return Err(e);
                },
            }
            i += 1;
        }
        Ok(())
    }

    /// Read a quoted string, resolving the escape set.
    fn tok_string(&mut self) -> (r: Result<String, String>)
        requires
            old(self).wf(),
        ensures
            final(self).wf(),
            final(self).chars == old(self).chars,
            final(self).input == old(self).input,
            r is Ok ==> final(self).pos > old(self).pos,
    {
        match self.consume('"') {
            Ok(_) => (),
            Err(e) => {
                return Err(e);
            },
        }
        let n = self.chars.len();
        let mut s = String::new();
        let mut escape = false;
        loop
            invariant_except_break
                self.wf(),
                n == self.chars@.len(),
                self.chars == old(self).chars,
                self.input == old(self).input,
                self.pos > old(self).pos,
            ensures
                self.wf(),
                self.chars == old(self).chars,
                self.input == old(self).input,
                self.pos > old(self).pos,
            decreases self.chars@.len() - self.pos,
        {
            if self.pos >= n {
                let e = if n < usize::MAX {
                    n + 1
                } else {
                    n
                };
                return Err(
                    self.format_diagnostic(
                        "Unexpected end of input",
                        n,
                        e,
                        "more characters were expected",
                    ),
                );
            }
            let c = self.chars[self.pos];
            self.pos = self.pos + 1;
            if escape {
                let unescaped = if c == 't' {
                    '\t'
                } else if c == 'n' {
                    '\n'
                } else if c == 'r' {
                    '\r'
                } else {
                    c
                };
                string_push_char(&mut s, unescaped);
                escape = false;
            } else if c == '\\' {
                escape = true;
            } else if c == '"' {
                break;
            } else {
                string_push_char(&mut s, c);
            }
        }
        Ok(s)
    }

    /// Tokenize the whole input.
    pub fn tokenize(self) -> (r: Result<Vec<Token>, String>)
        requires
            self.wf(),
    {
        let mut t = self;
        let n = t.chars.len();
        loop
            invariant
                t.wf(),
                n == t.chars@.len(),
            decreases t.chars@.len() - t.pos,
        {
            if t.pos >= n {
                break;
            }
            let c = t.chars[t.pos];
            if c == ' ' || c == '\t' || c == '\n' || c == '\r' {
                t.pos = t.pos + 1;
            } else if c == '[' {
                t.tokens.push(Token::LBracket);
                t.pos = t.pos + 1;
            } else if c == ']' {
                t.tokens.push(Token::RBracket);
                t.pos = t.pos + 1;
            } else if c == '{' {
                t.tokens.push(Token::LBrace);
                t.pos = t.pos + 1;
            } else if c == '}' {
                t.tokens.push(Token::RBrace);
                t.pos = t.pos + 1;
            } else if c == ':' {
                t.tokens.push(Token::Colon);
                t.pos = t.pos + 1;
            } else if c == ',' {
                t.tokens.push(Token::Comma);
                t.pos = t.pos + 1;
            } else if c == 't' {
                proof {
                    reveal_strlit("true");
                }
                match t.consume_str("true") {
                    Ok(_) => t.tokens.push(Token::Bool(true)),
                    Err(e) => {
                        return Err(e);
                    },
                }
            } else if c == 'f' {
                proof {
                    reveal_strlit("false");
                }
                match t.consume_str("false") {
                    Ok(_) => t.tokens.push(Token::Bool(false)),
                    Err(e) => {
                        return Err(e);
                    },
                }
            } else if c == 'n' {
                proof {
                    reveal_strlit("null");
                }
                match t.consume_str("null") {
                    Ok(_) => t.tokens.push(Token::Null),
                    Err(e) => {
                        return Err(e);
                    },
                }
            } else if c == '"' {
                match t.tok_string() {
                    Ok(s) => t.tokens.push(Token::Str(s)),
                    Err(e) => {
                        return Err(e);
                    },
                }
            } else {
                let cu = c as u32;
                if 0x30 <= cu && cu <= 0x39 {
                    let start = t.pos;
                    let mut val: u64 = (cu - 0x30) as u64;
                    let mut too_large = false;
                    t.pos = t.pos + 1;
                    loop
                        invariant
                            t.wf(),
                            n == t.chars@.len(),
                            t.pos > start,
                        decreases t.chars@.len() - t.pos,
                    {
                        if t.pos >= n {
                            break;
                        }
                        let d = t.chars[t.pos] as u32;
                        if !(0x30 <= d && d <= 0x39) {
                            break;
                        }
                        let dv = (d - 0x30) as u64;
                        if val > (u64::MAX - dv) / 10 {
                            too_large = true;
                        } else {
                            val = val * 10 + dv;
                        }
                        t.pos = t.pos + 1;
                    }
                    if too_large {
                        return Err(
                            t.format_diagnostic(
                                "Integer literal too large",
                                start,
                                t.pos,
                                "this integer literal does not fit",
                            ),
                        );
                    }
                    t.tokens.push(Token::Num(val));
                } else {
                    let mut label = String::new();
                    string_push_char(&mut label, '`');
                    string_push_char(&mut label, c);
                    let label = str_concat(label.as_str(), "` was not expected here");
                    return Err(
                        t.format_diagnostic("Unexpected input", t.pos, t.pos + 1, label.as_str()),
                    );
                }
            }
        }
        Ok(t.tokens)
    }
}

} // verus!
