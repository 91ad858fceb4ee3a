//! Parsing the bracketed, comma-separated textual form back into values.

use vstd::prelude::*;
use crate::tokenizer::{Token, Tokenizer};
use crate::value::Value;

verus! {

/// The first position holding this key, if any entry does.
pub open spec fn spec_key_index(s: Seq<(String, Value)>, k: Seq<char>) -> Option<int>
    decreases s.len(),
{
    if s.len() == 0 {
        None
    } else if s[0].0@ == k {
        Some(0)
    } else {
        match spec_key_index(s.drop_first(), k) {
            Some(j) => Some(j + 1),
            None => None,
        }
    }
}

/// `spec_key_index` is exactly the scan: the first match, or nothing when
/// no entry matches.
pub proof fn lemma_key_index(s: Seq<(String, Value)>, k: Seq<char>, j: int)
    requires
        0 <= j <= s.len(),
        forall|i: int| 0 <= i < j ==> (#[trigger] s[i]).0@ != k,
        j == s.len() || s[j].0@ == k,
    ensures
        spec_key_index(s, k) == (if j == s.len() {
            None::<int>
        } else {
            Some(j)
        }),
    decreases s.len(),
{
    if s.len() == 0 {
    } else if s[0].0@ == k {
        assert(j == 0);
    } else {
        assert(j >= 1);
        let rest = s.drop_first();
        assert(forall|i: int| 0 <= i < j - 1 ==> (#[trigger] rest[i]).0@ != k);
        lemma_key_index(rest, k, j - 1);
    }
}

/// Insert into an insertion-ordered key map: an existing key keeps its
/// place (and its stored key) and takes the new value; a new key goes to
/// the end.
pub fn map_insert(o: &mut Vec<(String, Value)>, key: String, v: Value)
    ensures
        match spec_key_index(old(o)@, key@) {
            Some(i) => final(o)@ == old(o)@.update(i, (old(o)@[i].0, v)),
            None => final(o)@ == old(o)@.push((key, v)),
        },
{
    let n = o.len();
    let mut k: usize = 0;
    while k < n
        invariant
            n == o@.len(),
            o@ == old(o)@,
            k <= n,
            forall|i: int| 0 <= i < k ==> (#[trigger] o@[i]).0@ != key@,
        decreases n - k,
    {
        if o[k].0.eq(&key) {
            proof {
                lemma_key_index(o@, key@, k as int);
            }
            let mut entry = o.remove(k);
            entry.1 = v;
            o.insert(k, entry);
            proof {
                assert(o@ =~= old(o)@.update(k as int, (old(o)@[k as int].0, v)));
            }
            return ;
        }
        k += 1;
    }
    proof {
        lemma_key_index(o@, key@, n as int);
    }
    o.push((key, v));
}

impl Value {
    /// Parse the bracketed form.  The whole input must be one value.
    pub fn parse(s: &str) -> (r: Result<Value, String>) {
        let tokens = match Tokenizer::new(s).tokenize() {
            Ok(t) => t,
            Err(e) => {
                return Err(e);
            },
        };
        let mut pos: usize = 0;
        match Self::parse_at(&tokens, &mut pos) {
            Ok(v) => {
                if pos < tokens.len() {
                    Err("Unexpected characters".to_owned())
                } else {
                    Ok(v)
                }
            },
            Err(e) => Err(e),
        }
    }

    /// Parse one value off the token stream.
    #[verifier::loop_isolation(false)]
    fn parse_at(tokens: &Vec<Token>, pos: &mut usize) -> (r: Result<Value, String>)
        requires
            *old(pos) <= tokens@.len(),
        ensures
            *final(pos) <= tokens@.len(),
            r is Ok ==> *final(pos) > *old(pos),
        decreases tokens@.len() - *old(pos), 2int,
    {
        if *pos >= tokens.len() {
            return Err("Unexpected EOF".to_owned());
        }
        let t = &tokens[*pos];
        *pos = *pos + 1;
        match t {
            Token::Null => Ok(Value::Null),
            Token::Bool(b) => Ok(Value::Bool(*b)),
            Token::Num(n) => Ok(Value::Number(*n)),
            Token::Str(s) => Ok(Value::String(s.clone())),
            Token::LBracket => {
                let mut elmts: Vec<Value> = Vec::new();
                if *pos < tokens.len() && matches!(tokens[*pos], Token::RBracket) {
                    *pos = *pos + 1;
                    return Ok(Value::Array(elmts));
                }
                match Self::parse_at(tokens, pos) {
                    Ok(v) => elmts.push(v),
                    Err(e) => {
                        return Err(e);
                    },
                }
                loop
                    invariant
                        *pos <= tokens@.len(),
                        *pos > *old(pos),
                    decreases tokens@.len() - *pos,
                {
                    if *pos >= tokens.len() {
                        return Err("Unexpected EOF".to_owned());
                    }
                    let sep = &tokens[*pos];
                    *pos = *pos + 1;
                    match sep {
                        Token::Comma => {
                            if *pos < tokens.len() && matches!(tokens[*pos], Token::RBracket) {
                                *pos = *pos + 1;
                                return Ok(Value::Array(elmts));
                            }
                            match Self::parse_at(tokens, pos) {
                                Ok(v) => elmts.push(v),
                                Err(e) => {
                                    return Err(e);
                                },
                            }
                        },
                        Token::RBracket => {
                            return Ok(Value::Array(elmts));
                        },
                        _ => {
                            return Err("Unexpected token.".to_owned());
                        },
                    }
                }
            },
            Token::LBrace => {
                let mut elmts: Vec<(String, Value)> = Vec::new();
                if *pos < tokens.len() && matches!(tokens[*pos], Token::RBrace) {
                    *pos = *pos + 1;
                    return Ok(Value::Object(elmts));
                }
                match Self::parse_entry(tokens, pos) {
                    Ok((key, v)) => map_insert(&mut elmts, key, v),
                    Err(e) => {
                        return Err(e);
                    },
                }
                loop
                    invariant
                        *pos <= tokens@.len(),
                        *pos > *old(pos),
                    decreases tokens@.len() - *pos,
                {
                    if *pos >= tokens.len() {
                        return Err("Unexpected EOF".to_owned());
                    }
                    let sep = &tokens[*pos];
                    *pos = *pos + 1;
                    match sep {
                        Token::Comma => {
                            if *pos < tokens.len() && matches!(tokens[*pos], Token::RBrace) {
                                *pos = *pos + 1;
                                return Ok(Value::Object(elmts));
                            }
                            match Self::parse_entry(tokens, pos) {
                                Ok((key, v)) => map_insert(&mut elmts, key, v),
                                Err(e) => {
                                    return Err(e);
                                },
                            }
                        },
                        Token::RBrace => {
                            return Ok(Value::Object(elmts));
                        },
                        _ => {
                            return Err("Unexpected token.".to_owned());
                        },
                    }
                }
            },
            _ => Err("Unexpected token!".to_owned()),
        }
    }

    /// Parse one `key: value` entry of an object.
    fn parse_entry(tokens: &Vec<Token>, pos: &mut usize) -> (r: Result<(String, Value), String>)
        requires
            *old(pos) <= tokens@.len(),
        ensures
            *final(pos) <= tokens@.len(),
            r is Ok ==> *final(pos) > *old(pos),
        decreases tokens@.len() - *old(pos), 1int,
    {
        if *pos >= tokens.len() {
            return Err("Unexpected EOF".to_owned());
        }
        let key = match &tokens[*pos] {
            Token::Str(s) => s.clone(),
            _ => {
                return Err("Unexpected token.".to_owned());
            },
        };
        *pos = *pos + 1;
        if *pos >= tokens.len() {
            return Err("Unexpected EOF".to_owned());
        }
        match &tokens[*pos] {
            Token::Colon => {
                *pos = *pos + 1;
            },
            _ => {
                return Err("Unexpected token.".to_owned());
            },
        }
        match Self::parse_at(tokens, pos) {
            Ok(v) => Ok((key, v)),
            Err(e) => Err(e),
        }
    }
}

} // verus!
