//! The indentation-structured textual form: lines are split and measured,
//! gathered into trees by indentation, and the trees are read back into
//! values.

use vstd::prelude::*;
use crate::parse::map_insert;
use crate::strutil::{chars_to_string, string_to_chars};
use crate::tokenizer::{Token, Tokenizer};
use crate::value::Value;

verus! {

/// A tree of lines: a line's content and the more-indented lines under it.
#[derive(Debug, PartialEq, Eq)]
pub struct StrTree {
    pub elmt: String,
    pub children: Vec<StrTree>,
}

impl StrTree {
    /// A node from its content and children.
    pub fn new(elmt: String, children: Vec<StrTree>) -> (r: Self)
        ensures
            r.elmt == elmt,
            r.children == children,
    {
        StrTree { elmt, children }
    }
}

/// The position of the first line break, or the length when there is none.
pub open spec fn find_newline(t: Seq<char>) -> nat
    decreases t.len(),
{
    if t.len() == 0 {
        0
    } else if t[0] == '\n' {
        0
    } else {
        1 + find_newline(t.drop_first())
    }
}

/// `find_newline` is exactly the scan: no line break before it, and a line
/// break (or the end) at it.
pub proof fn lemma_find_newline(t: Seq<char>, k: int)
    requires
        0 <= k <= t.len(),
        forall|j: int| 0 <= j < k ==> t[j] != '\n',
        k == t.len() || t[k] == '\n',
    ensures
        find_newline(t) == k,
    decreases t.len(),
{
    if t.len() == 0 {
    } else if t[0] == '\n' {
        assert(k == 0);
    } else {
        assert(k >= 1);
        let rest = t.drop_first();
        assert(forall|j: int| 0 <= j < k - 1 ==> rest[j] != '\n');
        lemma_find_newline(rest, k - 1);
    }
}

/// How many spaces open a line.
pub open spec fn spec_leading_spaces(line: Seq<char>) -> nat
    decreases line.len(),
{
    if line.len() > 0 && line[0] == ' ' {
        1 + spec_leading_spaces(line.drop_first())
    } else {
        0
    }
}

/// `spec_leading_spaces` is exactly the scan: spaces up to it, and a
/// non-space (or the end) at it.
pub proof fn lemma_leading_spaces(line: Seq<char>, k: int)
    requires
        0 <= k <= line.len(),
        forall|j: int| 0 <= j < k ==> line[j] == ' ',
        k == line.len() || line[k] != ' ',
    ensures
        spec_leading_spaces(line) == k,
    decreases line.len(),
{
    if line.len() > 0 && line[0] == ' ' {
        assert(k >= 1);
        let rest = line.drop_first();
        assert(forall|j: int| 0 <= j < k - 1 ==> rest[j] == ' ');
        lemma_leading_spaces(rest, k - 1);
    } else {
        assert(k == 0);
    }
}

/// A line, measured: the count of its leading spaces, and what follows
/// them.
pub open spec fn spec_measure(line: Seq<char>) -> (nat, Seq<char>) {
    (spec_leading_spaces(line), line.skip(spec_leading_spaces(line) as int))
}

/// Everything before the measured content is a space.
pub proof fn lemma_leading_are_spaces(line: Seq<char>)
    ensures
        spec_leading_spaces(line) <= line.len(),
        forall|j: int| 0 <= j < spec_leading_spaces(line) ==> line[j] == ' ',
    decreases line.len(),
{
    if line.len() > 0 && line[0] == ' ' {
        lemma_leading_are_spaces(line.drop_first());
        assert forall|j: int| 0 <= j < spec_leading_spaces(line) implies line[j] == ' ' by {
            if j > 0 {
                assert(line.drop_first()[j - 1] == line[j]);
            }
        }
    }
}

/// Measuring loses nothing: the counted spaces followed by the content
/// give the original line back.
pub proof fn lemma_measure_reconstructs(line: Seq<char>)
    ensures
        line == Seq::new(spec_measure(line).0, |j: int| ' ') + spec_measure(line).1,
{
    lemma_leading_are_spaces(line);
    assert(line =~= Seq::new(spec_measure(line).0, |j: int| ' ') + spec_measure(line).1);
}

/// The measured lines of a text, split at line breaks; a trailing line
/// break ends the last line rather than opening an empty one.
pub open spec fn spec_lines(t: Seq<char>) -> Seq<(nat, Seq<char>)>
    decreases t.len(),
{
    if t.len() == 0 {
        Seq::empty()
    } else {
        let i = find_newline(t) as int;
        let line = t.subrange(0, i);
        if i >= t.len() {
            seq![spec_measure(line)]
        } else {
            seq![spec_measure(line)] + spec_lines(t.skip(i + 1))
        }
    }
}

/// The pairs a measured-line list stands for.
pub open spec fn measured_view(r: Seq<(usize, String)>) -> Seq<(nat, Seq<char>)> {
    Seq::new(r.len(), |i: int| (r[i].0 as nat, r[i].1@))
}

/// Split into lines and measure each line's leading spaces; the content is
/// the line without them.  A trailing line break ends the last line rather
/// than opening an empty one.
pub fn lines_with_indent(s: &str) -> (r: Vec<(usize, String)>)
    ensures
        measured_view(r@) == spec_lines(s@),
{
    let chars = string_to_chars(s);
    let n = chars.len();
    let mut lines: Vec<(usize, String)> = Vec::new();
    let mut cur: Vec<char> = Vec::new();
    let mut i: usize = 0;
    proof {
        assert(cur@ + s@.skip(0) =~= s@);
        assert(measured_view(lines@) =~= Seq::<(nat, Seq<char>)>::empty());
        assert(spec_lines(s@) =~= measured_view(lines@) + spec_lines(cur@ + s@.skip(0)));
    }
    while i < n
        invariant
            i <= n,
            n == chars@.len(),
            chars@ == s@,
            cur@.len() <= i,
            forall|j: int| 0 <= j < cur@.len() ==> cur@[j] != '\n',
            spec_lines(s@) =~= measured_view(lines@) + spec_lines(cur@ + s@.skip(i as int)),
        decreases n - i,
    {
        let c = chars[i];
        let ghost pre_cur = cur@;
        let ghost pre_lines = lines@;
        if c == '\n' {
            lines.push(measure_line(&cur));
            cur = Vec::new();
            proof {
                let t = pre_cur + s@.skip(i as int);
                lemma_find_newline(t, pre_cur.len() as int);
                assert(t.subrange(0, pre_cur.len() as int) =~= pre_cur);
                assert(t.skip(pre_cur.len() as int + 1) =~= s@.skip(i + 1));
                assert(measured_view(lines@) =~= measured_view(pre_lines).push(
                    spec_measure(pre_cur),
                ));
                assert(spec_lines(s@) =~= measured_view(lines@) + spec_lines(
                    cur@ + s@.skip(i + 1),
                ));
            }
        } else {
            cur.push(c);
            proof {
                assert(pre_cur + s@.skip(i as int) =~= cur@ + s@.skip(i + 1));
            }
        }
        i += 1;
    }
    proof {
        assert(cur@ + s@.skip(n as int) =~= cur@);
    }
    if cur.len() > 0 {
        let m = measure_line(&cur);
        lines.push(m);
        proof {
            lemma_find_newline(cur@, cur@.len() as int);
            assert(cur@.subrange(0, cur@.len() as int) =~= cur@);
            assert(spec_lines(cur@) =~= seq![spec_measure(cur@)]);
            assert(measured_view(lines@) =~= spec_lines(s@));
        }
    } else {
        proof {
            assert(measured_view(lines@) =~= spec_lines(s@));
        }
    }
    lines
}

/// Count a line's leading spaces and keep what follows them.
fn measure_line(line: &Vec<char>) -> (r: (usize, String))
    ensures
        r.0 as nat == spec_measure(line@).0,
        r.1@ == spec_measure(line@).1,
{
    let n = line.len();
    let mut k: usize = 0;
    loop
        invariant_except_break
            k <= n,
            n == line@.len(),
            forall|j: int| 0 <= j < k ==> line@[j] == ' ',
        ensures
            k <= n,
            forall|j: int| 0 <= j < k ==> line@[j] == ' ',
            k == n || line@[k as int] != ' ',
        decreases n - k,
    {
        if k >= n {
            break ;
        }
        if line[k] != ' ' {
            break ;
        }
        k += 1;
    }
    proof {
        lemma_leading_spaces(line@, k as int);
    }
    let mut content: Vec<char> = Vec::new();
    let mut j: usize = k;
    while j < n
        invariant
            k <= j <= n,
            n == line@.len(),
            content@ =~= line@.subrange(k as int, j as int),
        decreases n - j,
    {
        content.push(line[j]);
        j += 1;
        proof {
            assert(content@ =~= line@.subrange(k as int, j as int));
        }
    }
    proof {
        assert(line@.subrange(k as int, n as int) =~= line@.skip(k as int));
    }
    (k, chars_to_string(&content))
}

/// Gather one tree off the measured lines: the first line is the root, and
/// a line returns to an enclosing level only if that level is on the way
/// up.  A line at or above the root's level ends the tree without being
/// consumed.
pub fn parse_one_root(lines: &Vec<(usize, String)>, pos: &mut usize) -> (r: Result<
    StrTree,
    String,
>)
    requires
        *old(pos) <= lines@.len(),
    ensures
        *final(pos) <= lines@.len(),
        r is Ok ==> *final(pos) > *old(pos),
        *old(pos) == lines@.len() ==> (r matches Err(m) && m@ == "Unexpected EOF"@),
        r matches Ok(t) ==> t.elmt@ == lines@[*old(pos) as int].1@,
{
    if *pos >= lines.len() {
        return Err("Unexpected EOF".to_owned());
    }
    let ghost rc = lines@[*pos as int].1@;
    let root_indent = lines[*pos].0;
    let root_content = lines[*pos].1.clone();
    *pos = *pos + 1;
    let ghost p0 = *pos;
    let mut stack: Vec<(usize, StrTree)> = Vec::new();
    stack.push((root_indent, StrTree::new(root_content, Vec::new())));
    while *pos < lines.len()
        invariant
            stack@.len() >= 1,
            stack@[0].1.elmt@ == rc,
            rc == lines@[*old(pos) as int].1@,
            *pos <= lines@.len(),
            *pos > *old(pos),
        decreases lines@.len() - *pos,
    {
        let ind = lines[*pos].0;
        let top_indent = stack[stack.len() - 1].0;
        if ind < top_indent {
            let mut found = false;
            let mut j: usize = 0;
            let m = stack.len();
            while j < m
                invariant
                    j <= m,
                    m == stack@.len(),
                decreases m - j,
            {
                if stack[j].0 == ind {
                    found = true;
                }
                j += 1;
            }
            if !found {
                return Err("Dedent to a level that was skipped previously.".to_owned());
            }
        }
        loop
            invariant_except_break
                stack@.len() >= 1,
                stack@[0].1.elmt@ == rc,
                rc == lines@[*old(pos) as int].1@,
                *pos <= lines@.len(),
                *pos > *old(pos),
            ensures
                stack@.len() >= 1,
                stack@[0].1.elmt@ == rc,
                *pos <= lines@.len(),
                *pos > *old(pos),
            decreases stack@.len(),
        {
            if ind > stack[stack.len() - 1].0 {
                break ;
            }
            let ghost st_pre = stack@;
            let tmp = match stack.pop() {
                Some(x) => x,
                None => {
                    return Err("the level stack ran dry".to_owned());
                },
            };
            match stack.pop() {
                Some(mut parent) => {
                    parent.1.children.push(tmp.1);
                    stack.push(parent);
                },
                None => {
                    // A line at or above the root's level: the tree is
                    // done, and the line stays for the next root.
                    proof {
                        assert(st_pre.len() == 1);
                        assert(tmp == st_pre[0]);
                    }
                    return Ok(tmp.1);
                },
            }
        }
        stack.push((ind, StrTree::new(lines[*pos].1.clone(), Vec::new())));
        *pos = *pos + 1;
    }
    loop
        invariant_except_break
            stack@.len() >= 1,
            stack@[0].1.elmt@ == rc,
            *pos <= lines@.len(),
            *pos > *old(pos),
        ensures
            stack@.len() == 1,
            stack@[0].1.elmt@ == rc,
            *pos <= lines@.len(),
            *pos > *old(pos),
        decreases stack@.len(),
    {
        if stack.len() == 1 {
            break ;
        }
        let tmp = match stack.pop() {
            Some(x) => x,
            None => {
                return Err("the level stack ran dry".to_owned());
            },
        };
        match stack.pop() {
            Some(mut parent) => {
                parent.1.children.push(tmp.1);
                stack.push(parent);
            },
            None => {
                return Err("the level stack ran dry".to_owned());
            },
        }
    }
    match stack.pop() {
        Some(x) => Ok(x.1),
        None => Err("the level stack ran dry".to_owned()),
    }
}

/// Gather exactly one tree from the text; trailing lines are an error.
/// An empty text has no lines and is refused; a gathered tree's root is
/// the first measured line's content.
pub fn parse_single_tree(s: &str) -> (r: Result<StrTree, String>)
    ensures
        spec_lines(s@).len() == 0 ==> (r matches Err(m) && m@ == "Unexpected EOF"@),
        r matches Ok(t) ==> spec_lines(s@).len() > 0 && t.elmt@ == spec_lines(s@)[0].1,
{
    let lines = lines_with_indent(s);
    let mut pos: usize = 0;
    let res = parse_one_root(&lines, &mut pos);
    proof {
        assert(measured_view(lines@).len() == lines@.len());
    }
    match res {
        Ok(st) => {
            proof {
                assert(st.elmt@ == measured_view(lines@)[0].1);
            }
            if pos < lines.len() {
                Err("Unexpected additional input".to_owned())
            } else {
                Ok(st)
            }
        },
        Err(e) => Err(e),
    }
}

/// Gather every tree from the text, in order.  An empty text yields no
/// trees; otherwise the first tree's root is the first measured line's
/// content.
pub fn parse_multiple_trees(s: &str) -> (r: Result<Vec<StrTree>, String>)
    ensures
        spec_lines(s@).len() == 0 ==> (r matches Ok(ts) && ts@.len() == 0),
        r matches Ok(ts) ==> (spec_lines(s@).len() == 0 || (ts@.len() > 0 && ts@[0].elmt@
            == spec_lines(s@)[0].1)),
{
    let lines = lines_with_indent(s);
    proof {
        assert(measured_view(lines@).len() == lines@.len());
    }
    let mut pos: usize = 0;
    let mut trees: Vec<StrTree> = Vec::new();
    let n = lines.len();
    while pos < n
        invariant
            pos <= n,
            n == lines@.len(),
            measured_view(lines@) == spec_lines(s@),
            spec_lines(s@).len() == lines@.len(),
            pos == 0 ==> trees@.len() == 0,
            pos > 0 ==> (trees@.len() >= 1 && trees@[0].elmt@ == lines@[0].1@),
        decreases n - pos,
    {
        let ghost pb = pos;
        match parse_one_root(&lines, &mut pos) {
            Ok(st) => {
                proof {
                    if pb == 0 {
                        assert(st.elmt@ == lines@[0].1@);
                    }
                }
                trees.push(st);
            },
            Err(e) => {
                return Err(e);
            },
        }
    }
    proof {
        if lines@.len() > 0 {
            assert(lines@[0].1@ == measured_view(lines@)[0].1);
        }
    }
    Ok(trees)
}

/// Parse one line as a leaf value or an empty aggregate.
pub fn parse_line(s: &str) -> (r: Result<Value, String>) {
    let tokens = match Tokenizer::new(s).tokenize() {
        Ok(t) => t,
        Err(e) => {
            return Err(e);
        },
    };
    parse_line_inner(&tokens, 0)
}

/// Parse the tokens from `start` on as a leaf value or an empty aggregate.
fn parse_line_inner(tokens: &Vec<Token>, start: usize) -> (r: Result<Value, String>) {
    let n = tokens.len();
    if start > n {
        return Err("Unexpected line".to_owned());
    }
    if n - start == 2 {
        if matches!(tokens[start], Token::LBrace) && matches!(tokens[start + 1], Token::RBrace) {
            return Ok(Value::Object(Vec::new()));
        }
        if matches!(tokens[start], Token::LBracket) && matches!(
            tokens[start + 1],
            Token::RBracket,
        ) {
            return Ok(Value::Array(Vec::new()));
        }
        return Err("Unexpected line".to_owned());
    }
    if n - start == 1 {
        return match &tokens[start] {
            Token::Bool(b) => Ok(Value::Bool(*b)),
            Token::Null => Ok(Value::Null),
            Token::Str(s) => Ok(Value::String(s.clone())),
            Token::Num(v) => Ok(Value::Number(*v)),
            _ => Err("Unexpected line".to_owned()),
        };
    }
    Err("Unexpected line".to_owned())
}

/// Read a gathered tree back into a value.
pub fn parse_str_tree(st: &StrTree) -> (r: Result<Value, String>)
    decreases *st, 0int,
{
    let line_value = match parse_line(st.elmt.as_str()) {
        Ok(v) => v,
        Err(e) => {
            return Err(e);
        },
    };
    parse_str_tree_inner(line_value, &st.children)
}

/// Fill an aggregate line's value from the lines under it; a leaf line may
/// not have any.
fn parse_str_tree_inner(line_value: Value, children: &Vec<StrTree>) -> (r: Result<Value, String>)
    decreases children@, 1int,
{
    match line_value {
        Value::Array(_) => {
            let mut out: Vec<Value> = Vec::new();
            let n = children.len();
            let mut i: usize = 0;
            while i < n
                invariant
                    i <= n,
                    n == children@.len(),
                decreases n - i,
            {
                proof {
                    assert(decreases_to!(children@ => children@[i as int]));
                }
                match parse_str_tree(&children[i]) {
                    Ok(v) => out.push(v),
                    Err(e) => {
                        return Err(e);
                    },
                }
                i += 1;
            }
            Ok(Value::Array(out))
        },
        Value::Object(_) => {
            let mut out: Vec<(String, Value)> = Vec::new();
            let n = children.len();
            let mut i: usize = 0;
            while i < n
                invariant
                    i <= n,
                    n == children@.len(),
                decreases n - i,
            {
                let child = &children[i];
                let tokens = match Tokenizer::new(child.elmt.as_str()).tokenize() {
                    Ok(t) => t,
                    Err(e) => {
                        return Err(e);
                    },
                };
                if tokens.len() < 2 {
                    return Err("Failed to parse line as an object attribute".to_owned());
                }
                let key = match &tokens[0] {
                    Token::Str(s) => s.clone(),
                    _ => {
                        return Err("Failed to parse line as an object attribute".to_owned());
                    },
                };
                if !matches!(tokens[1], Token::Colon) {
                    return Err("Failed to parse line as an object attribute".to_owned());
                }
                let line_value = match parse_line_inner(&tokens, 2) {
                    Ok(v) => v,
                    Err(e) => {
                        return Err(e);
                    },
                };
                proof {
                    assert(decreases_to!(children@ => children@[i as int].children@));
                }
                let value = match parse_str_tree_inner(line_value, &child.children) {
                    Ok(v) => v,
                    Err(e) => {
                        return Err(e);
                    },
                };
                map_insert(&mut out, key, value);
                i += 1;
            }
            Ok(Value::Object(out))
        },
        val => {
            if children.len() > 0 {
                return Err("This node may not have children".to_owned());
            }
            Ok(val)
        },
    }
}

impl Value {
    /// Parse the indentation-structured form.  The whole input must be one
    /// tree.
    pub fn parse_indented(s: &str) -> (r: Result<Value, String>) {
        let st = match parse_single_tree(s) {
            Ok(x) => x,
            Err(e) => {
                return Err(e);
            },
        };
        parse_str_tree(&st)
    }
}

} // verus!
