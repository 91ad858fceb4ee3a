//! Pretty-printing of values: the bracketed, comma-separated form and the
//! indentation-structured form, both specified character by character.
//!
//! Strings are quoted with a small escape set — quote, backslash, newline,
//! tab, carriage return — and every other character stands for itself.

use vstd::prelude::*;
use crate::strutil::{spec_decimal, string_push_char, string_push_str, string_to_chars, u64_to_decimal};
use crate::value::{VModel, Value};

verus! {

/// How one character appears inside a quoted string.
pub open spec fn spec_escape_char(c: char) -> Seq<char> {
    if c == '"' {
        seq!['\\', '"']
    } else if c == '\\' {
        seq!['\\', '\\']
    } else if c == '\n' {
        seq!['\\', 'n']
    } else if c == '\t' {
        seq!['\\', 't']
    } else if c == '\r' {
        seq!['\\', 'r']
    } else {
        seq![c]
    }
}

/// A string's characters, escaped.
pub open spec fn spec_escape(s: Seq<char>) -> Seq<char>
    decreases s,
{
    if s.len() == 0 {
        Seq::empty()
    } else {
        spec_escape(s.drop_last()) + spec_escape_char(s.last())
    }
}

/// A string, quoted and escaped.
pub open spec fn spec_quoted(s: Seq<char>) -> Seq<char> {
    seq!['"'] + spec_escape(s) + seq!['"']
}

/// `k` levels of indentation, two spaces each.
pub open spec fn spec_indent(k: nat) -> Seq<char> {
    Seq::new(2 * k, |i: int| ' ')
}

/// A line break followed by the current indentation.
pub open spec fn spec_newline(k: nat) -> Seq<char> {
    seq!['\n'] + spec_indent(k)
}

/// The indentation-structured rendering: aggregates open with `[]` or `{}`
/// and list their contents on deeper-indented lines.
pub open spec fn spec_print2(m: VModel, k: nat) -> Seq<char>
    decreases m, 0int,
{
    match m {
        VModel::Null => "null"@,
        VModel::Bool(b) => if b {
            "true"@
        } else {
            "false"@
        },
        VModel::Number(n) => spec_decimal(n as nat),
        VModel::Str(s) => spec_quoted(s),
        VModel::Array(a) => seq!['[', ']'] + spec_print2_list(a, (k + 1) as nat),
        VModel::Object(o) => seq!['{', '}'] + spec_print2_object(o, (k + 1) as nat),
    }
}

/// The lines of an array's elements in the indentation-structured form.
pub open spec fn spec_print2_list(a: Seq<VModel>, k: nat) -> Seq<char>
    decreases a, 1int,
{
    if a.len() == 0 {
        Seq::empty()
    } else {
        spec_print2_list(a.drop_last(), k) + spec_newline(k) + spec_print2(a.last(), k)
    }
}

/// The lines of an object's entries in the indentation-structured form.
pub open spec fn spec_print2_object(o: Seq<(Seq<char>, VModel)>, k: nat) -> Seq<char>
    decreases o, 1int,
{
    if o.len() == 0 {
        Seq::empty()
    } else {
        spec_print2_object(o.drop_last(), k) + spec_newline(k) + spec_quoted(o.last().0) + seq![
            ':',
            ' ',
        ] + spec_print2(o.last().1, k)
    }
}

/// The bracketed, comma-separated rendering.
pub open spec fn spec_print1(m: VModel, k: nat) -> Seq<char>
    decreases m, 0int,
{
    match m {
        VModel::Null => "null"@,
        VModel::Bool(b) => if b {
            "true"@
        } else {
            "false"@
        },
        VModel::Number(n) => spec_decimal(n as nat),
        VModel::Str(s) => spec_quoted(s),
        VModel::Array(a) => if a.len() == 0 {
            seq!['[', ']']
        } else {
            seq!['['] + spec_print1_list(a, (k + 1) as nat) + spec_newline(k) + seq![']']
        },
        VModel::Object(o) => if o.len() == 0 {
            seq!['{', '}']
        } else {
            seq!['{'] + spec_print1_object(o, (k + 1) as nat) + spec_newline(k) + seq!['}']
        },
    }
}

/// The comma-terminated element lines of an array.
pub open spec fn spec_print1_list(a: Seq<VModel>, k: nat) -> Seq<char>
    decreases a, 1int,
{
    if a.len() == 0 {
        Seq::empty()
    } else {
        spec_print1_list(a.drop_last(), k) + spec_newline(k) + spec_print1(a.last(), k) + seq![',']
    }
}

/// The comma-terminated entry lines of an object.
pub open spec fn spec_print1_object(o: Seq<(Seq<char>, VModel)>, k: nat) -> Seq<char>
    decreases o, 1int,
{
    if o.len() == 0 {
        Seq::empty()
    } else {
        spec_print1_object(o.drop_last(), k) + spec_newline(k) + spec_quoted(o.last().0) + seq![
            ':',
            ' ',
        ] + spec_print1(o.last().1, k) + seq![',']
    }
}

/// How deeply aggregates nest: a leaf is depth zero, an aggregate one
/// more than its deepest member.
pub open spec fn spec_depth(m: VModel) -> nat
    decreases m, 0int,
{
    match m {
        VModel::Null => 0,
        VModel::Bool(_) => 0,
        VModel::Number(_) => 0,
        VModel::Str(_) => 0,
        VModel::Array(a) => 1 + spec_depth_list(a),
        VModel::Object(o) => 1 + spec_depth_object(o),
    }
}

/// The deepest element of a sequence of values.
pub open spec fn spec_depth_list(a: Seq<VModel>) -> nat
    decreases a, 1int,
{
    if a.len() == 0 {
        0
    } else {
        if spec_depth(a.last()) >= spec_depth_list(a.drop_last()) {
            spec_depth(a.last())
        } else {
            spec_depth_list(a.drop_last())
        }
    }
}

/// The deepest value of an object's entries.
pub open spec fn spec_depth_object(o: Seq<(Seq<char>, VModel)>) -> nat
    decreases o, 1int,
{
    if o.len() == 0 {
        0
    } else {
        if spec_depth(o.last().1) >= spec_depth_object(o.drop_last()) {
            spec_depth(o.last().1)
        } else {
            spec_depth_object(o.drop_last())
        }
    }
}

/// No element is deeper than the sequence's depth.
pub proof fn lemma_depth_list_elem(a: Seq<VModel>, i: int)
    requires
        0 <= i < a.len(),
    ensures
        spec_depth(a[i]) <= spec_depth_list(a),
    decreases a,
{
    if i == a.len() - 1 {
    } else {
        assert(a.drop_last()[i] == a[i]);
        lemma_depth_list_elem(a.drop_last(), i);
    }
}

/// No entry's value is deeper than the entries' depth.
pub proof fn lemma_depth_object_elem(o: Seq<(Seq<char>, VModel)>, i: int)
    requires
        0 <= i < o.len(),
    ensures
        spec_depth(o[i].1) <= spec_depth_object(o),
    decreases o,
{
    if i == o.len() - 1 {
    } else {
        assert(o.drop_last()[i] == o[i]);
        lemma_depth_object_elem(o.drop_last(), i);
    }
}

/// The growing output of a pretty print, with its indentation level.
pub struct ValuePrinter {
    pub indent: usize,
    pub s: String,
}

impl Default for ValuePrinter {
    /// An empty printer at indentation zero.
    fn default() -> (r: Self)
        ensures
            r.indent == 0,
            r.s@ == Seq::<char>::empty(),
    {
        ValuePrinter { indent: 0, s: String::new() }
    }
}

impl ValuePrinter {
    /// Break the line and indent.
    pub fn print_newline(&mut self)
        ensures
            final(self).indent == old(self).indent,
            final(self).s@ == old(self).s@ + spec_newline(old(self).indent as nat),
    {
        string_push_char(&mut self.s, '\n');
        let k = self.indent;
        let ghost base = self.s@;
        let mut j: usize = 0;
        while j < k
            invariant
                j <= k,
                self.indent == k,
                self.s@ == base + Seq::new(2 * j as nat, |i: int| ' '),
            decreases k - j,
        {
            string_push_char(&mut self.s, ' ');
            string_push_char(&mut self.s, ' ');
            j += 1;
            proof {
                assert(self.s@ =~= base + Seq::new(2 * j as nat, |i: int| ' '));
            }
        }
        proof {
            assert(self.s@ =~= old(self).s@ + spec_newline(old(self).indent as nat));
        }
    }

    /// Append a string, quoted and escaped.
    pub fn print_str(&mut self, t: &str)
        ensures
            final(self).indent == old(self).indent,
            final(self).s@ == old(self).s@ + spec_quoted(t@),
    {
        string_push_char(&mut self.s, '"');
        let chars = string_to_chars(t);
        let n = chars.len();
        let ghost base = self.s@;
        let mut i: usize = 0;
        while i < n
            invariant
                i <= n,
                n == chars@.len(),
                chars@ == t@,
                self.indent == old(self).indent,
                self.s@ == base + spec_escape(t@.subrange(0, i as int)),
            decreases n - i,
        {
            let c = chars[i];
            if c == '"' {
                string_push_char(&mut self.s, '\\');
                string_push_char(&mut self.s, '"');
            } else if c == '\\' {
                string_push_char(&mut self.s, '\\');
                string_push_char(&mut self.s, '\\');
            } else if c == '\n' {
                string_push_char(&mut self.s, '\\');
                string_push_char(&mut self.s, 'n');
            } else if c == '\t' {
                string_push_char(&mut self.s, '\\');
                string_push_char(&mut self.s, 't');
            } else if c == '\r' {
                string_push_char(&mut self.s, '\\');
                string_push_char(&mut self.s, 'r');
            } else {
                string_push_char(&mut self.s, c);
            }
            i += 1;
            proof {
                assert(t@.subrange(0, i as int).drop_last() =~= t@.subrange(0, i - 1));
                assert(self.s@ =~= base + spec_escape(t@.subrange(0, i as int)));
            }
        }
        string_push_char(&mut self.s, '"');
        proof {
            assert(t@.subrange(0, n as int) =~= t@);
            assert(self.s@ =~= old(self).s@ + spec_quoted(t@));
        }
    }

    /// Append `true` or `false`.
    pub fn print_bool(&mut self, b: bool)
        ensures
            final(self).indent == old(self).indent,
            final(self).s@ == old(self).s@ + (if b {
                "true"@
            } else {
                "false"@
            }),
    {
        if b {
            string_push_str(&mut self.s, "true");
        } else {
            string_push_str(&mut self.s, "false");
        }
    }

    /// Append `null`.
    pub fn print_null(&mut self)
        ensures
            final(self).indent == old(self).indent,
            final(self).s@ == old(self).s@ + "null"@,
    {
        string_push_str(&mut self.s, "null");
    }

    /// Append a number in decimal.
    pub fn print_u64(&mut self, n: u64)
        ensures
            final(self).indent == old(self).indent,
            final(self).s@ == old(self).s@ + spec_decimal(n as nat),
    {
        let d = u64_to_decimal(n);
        string_push_str(&mut self.s, d.as_str());
    }

    /// One level deeper.
    pub fn indent(&mut self)
        requires
            old(self).indent < usize::MAX,
        ensures
            final(self).indent == old(self).indent + 1,
            final(self).s@ == old(self).s@,
    {
        self.indent = self.indent + 1;
    }

    /// One level shallower.
    pub fn dedent(&mut self)
        requires
            old(self).indent >= 1,
        ensures
            final(self).indent == old(self).indent - 1,
            final(self).s@ == old(self).s@,
    {
        self.indent = self.indent - 1;
    }

    /// Append one character.
    pub fn print(&mut self, c: char)
        ensures
            final(self).indent == old(self).indent,
            final(self).s@ == old(self).s@.push(c),
    {
        string_push_char(&mut self.s, c);
    }
}

impl Value {
    /// The bracketed, comma-separated rendering of this value.
    pub fn pretty_print(&self) -> (r: String)
        requires
            spec_depth(self.dview()) + 2 < usize::MAX,
        ensures
            r@ == spec_print1(self.dview(), 0),
    {
        let mut printer = ValuePrinter::default();
        self.pretty_print_(&mut printer);
        proof {
            assert(printer.s@ =~= spec_print1(self.dview(), 0));
        }
        printer.s
    }

    #[verifier::loop_isolation(false)]
    #[verifier::rlimit(60)]
    fn pretty_print_(&self, p: &mut ValuePrinter)
        requires
            old(p).indent + spec_depth(self.dview()) + 2 < usize::MAX,
        ensures
            final(p).indent == old(p).indent,
            final(p).s@ == old(p).s@ + spec_print1(self.dview(), old(p).indent as nat),
        decreases *self,
    {
        let ghost pre = old(p).s@;
        let ghost k = old(p).indent as nat;
        match self {
            Value::Null => {
                p.print_null();
            },
            Value::Bool(b) => {
                p.print_bool(*b);
            },
            Value::Number(n) => {
                p.print_u64(*n);
            },
            Value::String(s) => {
                p.print_str(s.as_str());
            },
            Value::Array(a) => {
                let ghost models = Seq::new(
                    a@.len(),
                    |i: int| if 0 <= i < a@.len() {
                        a[i].dview()
                    } else {
                        VModel::Null
                    },
                );
                proof {
                    assert(self.dview() matches VModel::Array(ms) && ms =~= models);
                }
                p.print('[');
                if a.len() > 0 {
                    p.indent();
                    let n = a.len();
                    let ghost head = pre.push('[');
                    let mut i: usize = 0;
                    while i < n
                        invariant
                            0 <= i <= n,
                            p.indent == k + 1,
                            p.s@ == head + spec_print1_list(models.subrange(0, i as int), (k
                                + 1) as nat),
                        decreases n - i,
                    {
                        p.print_newline();
                        proof {
                            assert(decreases_to!(*self => self->Array_0@[i as int]));
                            assert(self->Array_0@[i as int] == a@[i as int]);
                            lemma_depth_list_elem(models, i as int);
                        }
                        a[i].pretty_print_(p);
                        p.print(',');
                        i += 1;
                        proof {
                            assert(models.subrange(0, i as int).drop_last() =~= models.subrange(
                                0,
                                i - 1,
                            ));
                            assert(p.s@ =~= head + spec_print1_list(
                                models.subrange(0, i as int),
                                (k + 1) as nat,
                            ));
                        }
                    }
                    p.dedent();
                    p.print_newline();
                    proof {
                        assert(models.subrange(0, n as int) =~= models);
                    }
                }
                p.print(']');
                proof {
                    assert(self.dview() matches VModel::Array(ms) && ms =~= models);
                    assert(p.s@ =~= pre + spec_print1(self.dview(), k));
                }
            },
            Value::Object(o) => {
                let ghost entries = Seq::new(
                    o@.len(),
                    |i: int| if 0 <= i < o@.len() {
                        (o[i].0@, o[i].1.dview())
                    } else {
                        (Seq::<char>::empty(), VModel::Null)
                    },
                );
                proof {
                    assert(self.dview() matches VModel::Object(es) && es =~= entries);
                }
                p.print('{');
                if o.len() > 0 {
                    p.indent();
                    let n = o.len();
                    let ghost head = pre.push('{');
                    let mut i: usize = 0;
                    while i < n
                        invariant
                            0 <= i <= n,
                            p.indent == k + 1,
                            p.s@ == head + spec_print1_object(entries.subrange(0, i as int), (k
                                + 1) as nat),
                        decreases n - i,
                    {
                        p.print_newline();
                        p.print_str(o[i].0.as_str());
                        p.print(':');
                        p.print(' ');
                        proof {
                            assert(decreases_to!(*self => self->Object_0@[i as int].1));
                            assert(self->Object_0@[i as int] == o@[i as int]);
                            lemma_depth_object_elem(entries, i as int);
                            assert(entries[i as int].1 == o@[i as int].1.dview());
                        }
                        o[i].1.pretty_print_(p);
                        p.print(',');
                        i += 1;
                        proof {
                            assert(entries.subrange(0, i as int).drop_last() =~= entries.subrange(
                                0,
                                i - 1,
                            ));
                            assert(p.s@ =~= head + spec_print1_object(
                                entries.subrange(0, i as int),
                                (k + 1) as nat,
                            ));
                        }
                    }
                    p.dedent();
                    p.print_newline();
                    proof {
                        assert(entries.subrange(0, n as int) =~= entries);
                    }
                }
                p.print('}');
                proof {
                    assert(self.dview() matches VModel::Object(es) && es =~= entries);
                    assert(p.s@ =~= pre + spec_print1(self.dview(), k));
                }
            },
        }
    }

    /// The indentation-structured rendering of this value.
    pub fn pretty_print_2(&self) -> (r: String)
        requires
            spec_depth(self.dview()) + 2 < usize::MAX,
        ensures
            r@ == spec_print2(self.dview(), 0),
    {
        let mut printer = ValuePrinter::default();
        self.pretty_print_2_(&mut printer);
        proof {
            assert(printer.s@ =~= spec_print2(self.dview(), 0));
        }
        printer.s
    }

    #[verifier::loop_isolation(false)]
    #[verifier::rlimit(60)]
    fn pretty_print_2_(&self, p: &mut ValuePrinter)
        requires
            old(p).indent + spec_depth(self.dview()) + 2 < usize::MAX,
        ensures
            final(p).indent == old(p).indent,
            final(p).s@ == old(p).s@ + spec_print2(self.dview(), old(p).indent as nat),
        decreases *self,
    {
        let ghost pre = old(p).s@;
        let ghost k = old(p).indent as nat;
        match self {
            Value::Null => {
                p.print_null();
            },
            Value::Bool(b) => {
                p.print_bool(*b);
            },
            Value::Number(n) => {
                p.print_u64(*n);
            },
            Value::String(s) => {
                p.print_str(s.as_str());
            },
            Value::Array(a) => {
                let ghost models = Seq::new(
                    a@.len(),
                    |i: int| if 0 <= i < a@.len() {
                        a[i].dview()
                    } else {
                        VModel::Null
                    },
                );
                proof {
                    assert(self.dview() matches VModel::Array(ms) && ms =~= models);
                }
                p.print('[');
                p.print(']');
                if a.len() > 0 {
                    p.indent();
                    let n = a.len();
                    let ghost head = pre + seq!['[', ']'];
                    proof {
                        assert(p.s@ =~= head);
                    }
                    let mut i: usize = 0;
                    while i < n
                        invariant
                            0 <= i <= n,
                            p.indent == k + 1,
                            p.s@ == head + spec_print2_list(models.subrange(0, i as int), (k
                                + 1) as nat),
                        decreases n - i,
                    {
                        p.print_newline();
                        proof {
                            assert(decreases_to!(*self => self->Array_0@[i as int]));
                            assert(self->Array_0@[i as int] == a@[i as int]);
                            lemma_depth_list_elem(models, i as int);
                        }
                        a[i].pretty_print_2_(p);
                        i += 1;
                        proof {
                            assert(models.subrange(0, i as int).drop_last() =~= models.subrange(
                                0,
                                i - 1,
                            ));
                            assert(p.s@ =~= head + spec_print2_list(
                                models.subrange(0, i as int),
                                (k + 1) as nat,
                            ));
                        }
                    }
                    p.dedent();
                    proof {
                        assert(models.subrange(0, n as int) =~= models);
                    }
                }
                proof {
                    assert(self.dview() matches VModel::Array(ms) && ms =~= models);
                    assert(p.s@ =~= pre + spec_print2(self.dview(), k));
                }
            },
            Value::Object(o) => {
                let ghost entries = Seq::new(
                    o@.len(),
                    |i: int| if 0 <= i < o@.len() {
                        (o[i].0@, o[i].1.dview())
                    } else {
                        (Seq::<char>::empty(), VModel::Null)
                    },
                );
                proof {
                    assert(self.dview() matches VModel::Object(es) && es =~= entries);
                }
                p.print('{');
                p.print('}');
                if o.len() > 0 {
                    p.indent();
                    let n = o.len();
                    let ghost head = pre + seq!['{', '}'];
                    proof {
                        assert(p.s@ =~= head);
                    }
                    let mut i: usize = 0;
                    while i < n
                        invariant
                            0 <= i <= n,
                            p.indent == k + 1,
                            p.s@ == head + spec_print2_object(entries.subrange(0, i as int), (k
                                + 1) as nat),
                        decreases n - i,
                    {
                        p.print_newline();
                        p.print_str(o[i].0.as_str());
                        p.print(':');
                        p.print(' ');
                        proof {
                            assert(decreases_to!(*self => self->Object_0@[i as int].1));
                            assert(self->Object_0@[i as int] == o@[i as int]);
                            lemma_depth_object_elem(entries, i as int);
                            assert(entries[i as int].1 == o@[i as int].1.dview());
                        }
                        o[i].1.pretty_print_2_(p);
                        i += 1;
                        proof {
                            assert(entries.subrange(0, i as int).drop_last() =~= entries.subrange(
                                0,
                                i - 1,
                            ));
                            assert(p.s@ =~= head + spec_print2_object(
                                entries.subrange(0, i as int),
                                (k + 1) as nat,
                            ));
                        }
                    }
                    p.dedent();
                    proof {
                        assert(entries.subrange(0, n as int) =~= entries);
                    }
                }
                proof {
                    assert(self.dview() matches VModel::Object(es) && es =~= entries);
                    assert(p.s@ =~= pre + spec_print2(self.dview(), k));
                }
            },
        }
    }
}


/// A non-empty sequence's depth is some element's depth.
pub proof fn lemma_depth_list_is_elem(a: Seq<VModel>)
    requires
        a.len() > 0,
    ensures
        exists|i: int| 0 <= i < a.len() && spec_depth_list(a) == spec_depth(#[trigger] a[i]),
    decreases a,
{
    if spec_depth(a.last()) >= spec_depth_list(a.drop_last()) {
        assert(spec_depth_list(a) == spec_depth(a[a.len() - 1]));
    } else {
        lemma_depth_list_is_elem(a.drop_last());
        let i = choose|i: int|
            0 <= i < a.drop_last().len() && spec_depth_list(a.drop_last()) == spec_depth(
                #[trigger] a.drop_last()[i],
            );
        assert(a.drop_last()[i] == a[i]);
        assert(spec_depth_list(a) == spec_depth(a[i]));
    }
}

/// A non-empty entry sequence's depth is some entry's value's depth.
pub proof fn lemma_depth_object_is_elem(o: Seq<(Seq<char>, VModel)>)
    requires
        o.len() > 0,
    ensures
        exists|i: int| 0 <= i < o.len() && spec_depth_object(o) == spec_depth(
            (#[trigger] o[i]).1,
        ),
    decreases o,
{
    if spec_depth(o.last().1) >= spec_depth_object(o.drop_last()) {
        assert(spec_depth_object(o) == spec_depth(o[o.len() - 1].1));
    } else {
        lemma_depth_object_is_elem(o.drop_last());
        let i = choose|i: int|
            0 <= i < o.drop_last().len() && spec_depth_object(o.drop_last()) == spec_depth(
                (#[trigger] o.drop_last()[i]).1,
            );
        assert(o.drop_last()[i] == o[i]);
        assert(spec_depth_object(o) == spec_depth(o[i].1));
    }
}

/// A decoded value is shallow: twice its depth is bounded by the bytes it
/// consumed, so a value read out of addressable memory can always be
/// printed.
pub proof fn lemma_deser_depth(b: Seq<u8>)
    ensures
        crate::value::spec_deser(b) matches Some((m, rest)) ==> (rest.len() <= b.len() && 2
            * spec_depth(m) + 1 <= b.len() - rest.len()),
    decreases b.len(), 0int,
{
    if crate::value::spec_deser(b) is Some {
        let (m, rest) = crate::value::spec_deser(b)->Some_0;
        let t = b[0];
        let r0 = b.drop_first();
        if t == 4 {
            let n = vstd::bytes::spec_u64_from_le_bytes(r0.subrange(0, 8)) as int;
            lemma_deser_list_depth(r0.skip(8), n);
            let (l, rest2) = crate::value::spec_deser_list(r0.skip(8), n)->Some_0;
            if l.len() > 0 {
                lemma_depth_list_is_elem(l);
                let i = choose|i: int|
                    0 <= i < l.len() && spec_depth_list(l) == spec_depth(#[trigger] l[i]);
                assert(2 * spec_depth(l[i]) + 1 <= r0.skip(8).len() - rest2.len());
            }
        } else if t == 5 {
            let n = vstd::bytes::spec_u64_from_le_bytes(r0.subrange(0, 8)) as int;
            lemma_deser_object_depth(r0.skip(8), n);
            let (o, rest2) = crate::value::spec_deser_object(r0.skip(8), n)->Some_0;
            if o.len() > 0 {
                lemma_depth_object_is_elem(o);
                let i = choose|i: int|
                    0 <= i < o.len() && spec_depth_object(o) == spec_depth((#[trigger] o[i]).1);
                assert(2 * spec_depth(o[i].1) + 1 <= r0.skip(8).len() - rest2.len());
            }
        }
    }
}

/// Every value of a decoded list is shallow, bounded by the bytes the
/// whole list consumed.
pub proof fn lemma_deser_list_depth(b: Seq<u8>, n: int)
    ensures
        crate::value::spec_deser_list(b, n) matches Some((l, rest)) ==> (rest.len() <= b.len() && (
        forall|i: int|
            0 <= i < l.len() ==> 2 * spec_depth(#[trigger] l[i]) + 1 <= b.len() - rest.len())),
    decreases b.len(), n,
{
    if n > 0 && crate::value::spec_deser_list(b, n) is Some {
        let (l, rest) = crate::value::spec_deser_list(b, n)->Some_0;
        lemma_deser_depth(b);
        let (v, rest1) = crate::value::spec_deser(b)->Some_0;
        lemma_deser_list_depth(rest1, n - 1);
        let (l2, rest2) = crate::value::spec_deser_list(rest1, n - 1)->Some_0;
        assert(l == seq![v] + l2);
        assert forall|i: int| 0 <= i < l.len() implies 2 * spec_depth(#[trigger] l[i]) + 1
            <= b.len() - rest.len() by {
            if i == 0 {
                assert(l[0] == v);
            } else {
                assert(l[i] == l2[i - 1]);
            }
        }
    }
}

/// Every value of a decoded object is shallow, bounded by the bytes the
/// whole object consumed.
pub proof fn lemma_deser_object_depth(b: Seq<u8>, n: int)
    ensures
        crate::value::spec_deser_object(b, n) matches Some((o, rest)) ==> (rest.len() <= b.len()
            && (forall|i: int|
            0 <= i < o.len() ==> 2 * spec_depth((#[trigger] o[i]).1) + 1 <= b.len() - rest.len())),
    decreases b.len(), n,
{
    if n > 0 && b.len() >= 8 && crate::value::spec_deser_object(b, n) is Some {
        let (o, rest) = crate::value::spec_deser_object(b, n)->Some_0;
        let l = vstd::bytes::spec_u64_from_le_bytes(b.subrange(0, 8)) as int;
        let rest0 = b.skip(8 + l);
        lemma_deser_depth(rest0);
        let (v, rest1) = crate::value::spec_deser(rest0)->Some_0;
        lemma_deser_object_depth(rest1, n - 1);
        let (o2, rest2) = crate::value::spec_deser_object(rest1, n - 1)->Some_0;
        let key = vstd::utf8::decode_utf8(b.subrange(8, 8 + l));
        assert(o == seq![(key, v)] + o2);
        assert forall|i: int| 0 <= i < o.len() implies 2 * spec_depth((#[trigger] o[i]).1) + 1
            <= b.len() - rest.len() by {
            if i == 0 {
                assert(o[0] == (key, v));
            } else {
                assert(o[i] == o2[i - 1]);
            }
        }
    }
}

} // verus!
