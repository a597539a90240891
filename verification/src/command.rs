//! The minimal command parser: the `say` command alone.
//!
//! This is the language's reduced front end: one command,
//! `say '<text>'.`, whose literal understands the escapes `\'` and
//! `\\`.  The richer grammar front end lives in [`crate::parser`].

use vstd::prelude::*;
use crate::ast::{ParseError, ErrorModel, Expected};
use crate::chars::{
    is_space_char, run_len, lemma_run_len_is, space_char_p, word_char_p, str_eq,
};
use crate::text::{spec_replace, replace};
use crate::tokenizer::scan_word_run;

verus! {

/// The marker type of the minimal front end.
#[derive(Debug)]
pub struct NekonomiconParser;

/// A parsed minimal command.
#[derive(Debug, Clone, PartialEq)]
pub enum Command {
    Say { text: String },
}

/// The length of a literal's raw content, up to its closing quote: an
/// escaped quote (`\'`) is content, a bare quote closes, and a literal
/// that never closes has no length.
pub open spec fn lit_len(s: Seq<char>) -> Option<nat>
    decreases s.len(),
{
    if s.len() == 0 {
        None
    } else if s[0] == '\'' {
        Some(0)
    } else if s[0] == '\\' && s.len() >= 2 && s[1] == '\'' {
        match lit_len(s.skip(2)) {
            Some(n) => Some(n + 2),
            None => None,
        }
    } else {
        match lit_len(s.skip(1)) {
            Some(n) => Some(n + 1),
            None => None,
        }
    }
}

/// Raw literal content decoded: `\'` becomes a quote, then `\\`
/// becomes one backslash.
pub open spec fn spec_unescape(raw: Seq<char>) -> Seq<char> {
    spec_replace(spec_replace(raw, seq!['\\', '\''], seq!['\'']), seq!['\\', '\\'], seq!['\\'])
}

/// What parsing a minimal command yields: the decoded text of
/// `say '<text>'.`, or the structural mismatch that stopped it.
/// Anything after the terminator is ignored.
pub open spec fn spec_say(s: Seq<char>) -> Result<Seq<char>, ErrorModel> {
    let i0 = run_len(s, space_char_p()) as int;
    let w = run_len(s.skip(i0), word_char_p()) as int;
    if s.subrange(i0, i0 + w) != "say"@ {
        Err(
            ErrorModel {
                expected: Expected::SayCommand,
                found: if i0 < s.len() {
                    Some(s.subrange(i0, if w > 0 { i0 + w } else { i0 + 1 }))
                } else {
                    None
                },
            },
        )
    } else {
        let i1 = i0 + w;
        let i2 = i1 + run_len(s.skip(i1), space_char_p());
        if i2 < s.len() && s[i2] == '\'' {
            match lit_len(s.skip(i2 + 1)) {
                None => Err(ErrorModel { expected: Expected::StringLiteral, found: None }),
                Some(n) => {
                    let raw = s.subrange(i2 + 1, i2 + 1 + n);
                    let i3 = i2 + 1 + n + 1;
                    let i4 = i3 + run_len(s.skip(i3), space_char_p());
                    if i4 < s.len() && s[i4] == '.' {
                        Ok(spec_unescape(raw))
                    } else {
                        Err(
                            ErrorModel {
                                expected: Expected::Terminator,
                                found: if i4 < s.len() {
                                    Some(seq![s[i4]])
                                } else {
                                    None
                                },
                            },
                        )
                    }
                },
            }
        } else {
            Err(
                ErrorModel {
                    expected: Expected::StringLiteral,
                    found: if i2 < s.len() {
                        Some(seq![s[i2]])
                    } else {
                        None
                    },
                },
            )
        }
    }
}

/// Scan forward from `from` over the lexer's whitespace.
fn scan_spaces(input: &str, from: usize) -> (j: usize)
    requires
        from <= input@.len(),
    ensures
        from <= j <= input@.len(),
        j - from == run_len(input@.skip(from as int), space_char_p()),
{
    let len = input.unicode_len();
    let mut j = from;
    while j < len && (input.get_char(j) == ' ' || input.get_char(j) == '\t' || input.get_char(j)
        == '\n')
        invariant
            from <= j <= len,
            len == input@.len(),
            forall|t: int| from <= t < j ==> is_space_char(#[trigger] input@[t]),
        decreases len - j,
    {
        j += 1;
    }
    proof {
        let tail = input@.skip(from as int);
        assert forall|t: int| 0 <= t < j - from implies space_char_p()(#[trigger] tail[t]) by {
            assert(tail[t] == input@[from + t]);
        }
        if j < len {
            assert(tail[j - from] == input@[j as int]);
        }
        lemma_run_len_is(tail, space_char_p(), (j - from) as nat);
    }
    j
}

/// Decode a literal's raw content, as [`spec_unescape`] describes.
pub fn parse_string_literal(raw: &str) -> (r: String)
    ensures
        r@ == spec_unescape(raw@),
{
    proof {
        reveal_strlit("\\'");
        reveal_strlit("'");
        reveal_strlit("\\\\");
        reveal_strlit("\\");
        assert("\\'"@ =~= seq!['\\', '\'']);
        assert("'"@ =~= seq!['\'']);
        assert("\\\\"@ =~= seq!['\\', '\\']);
        assert("\\"@ =~= seq!['\\']);
    }
    let step = replace(raw, "\\'", "'");
    replace(step.as_str(), "\\\\", "\\")
}

/// Parse one minimal command, exactly as [`spec_say`] describes.
pub fn parse(input: &str) -> (r: Result<Command, ParseError>)
    ensures
        ({
            match r {
                Ok(c) => ({
                    match c {
                        Command::Say { text } => spec_say(input@) == Ok::<Seq<char>, ErrorModel>(
                            text@,
                        ),
                    }
                }),
                Err(e) => spec_say(input@) == Err::<Seq<char>, ErrorModel>(e@),
            }
        }),
{
    let len = input.unicode_len();
    proof {
        assert(input@.skip(0) =~= input@);
    }
    let i0 = scan_spaces(input, 0);
    let i0w = scan_word_run(input, i0);
    let word = input.substring_char(i0, i0w);
    if !str_eq(word, "say") {
        let found = if i0 < len {
            if i0w > i0 {
                Some(String::from_str(word))
            } else {
                Some(String::from_str(input.substring_char(i0, i0 + 1)))
            }
        } else {
            None
        };
        return Err(ParseError { expected: Expected::SayCommand, found });
    }
    let i2 = scan_spaces(input, i0w);
    if !(i2 < len && input.get_char(i2) == '\'') {
        let found = if i2 < len {
            proof {
                assert(input@.subrange(i2 as int, i2 as int + 1) =~= seq![input@[i2 as int]]);
            }
            Some(String::from_str(input.substring_char(i2, i2 + 1)))
        } else {
            None
        };
        return Err(ParseError { expected: Expected::StringLiteral, found });
    }
    // scan the literal's raw content, jumping over escaped quotes
    let start = i2 + 1;
    let mut j = start;
    while j < len && input.get_char(j) != '\''
        invariant
            start <= j <= len,
            len == input@.len(),
            start <= input@.len(),
            lit_len(input@.skip(start as int)) == (match lit_len(input@.skip(j as int)) {
                Some(n) => Some((j - start + n) as nat),
                None => None::<nat>,
            }),
        decreases len - j,
    {
        let ghost pre = input@.skip(j as int);
        proof {
            assert(pre[0] == input@[j as int]);
        }
        if input.get_char(j) == '\\' && j + 1 < len && input.get_char(j + 1) == '\'' {
            proof {
                assert(pre[1] == input@[j as int + 1]);
                assert(pre.skip(2) =~= input@.skip(j as int + 2));
            }
            j += 2;
        } else {
            proof {
                if pre[0] == '\\' && pre.len() >= 2 {
                    assert(pre[1] == input@[j as int + 1]);
                }
                assert(pre.skip(1) =~= input@.skip(j as int + 1));
            }
            j += 1;
        }
    }
    if j == len {
        // the literal never closes
        proof {
            assert(input@.skip(len as int) =~= Seq::<char>::empty());
        }
        return Err(ParseError { expected: Expected::StringLiteral, found: None });
    }
    proof {
        assert(input@.skip(j as int)[0] == input@[j as int]);
        assert(lit_len(input@.skip(start as int)) == Some((j - start) as nat));
    }
    let raw = input.substring_char(start, j);
    let i3 = j + 1;
    let i4 = scan_spaces(input, i3);
    if !(i4 < len && input.get_char(i4) == '.') {
        let found = if i4 < len {
            proof {
                assert(input@.subrange(i4 as int, i4 as int + 1) =~= seq![input@[i4 as int]]);
            }
            Some(String::from_str(input.substring_char(i4, i4 + 1)))
        } else {
            None
        };
        return Err(ParseError { expected: Expected::Terminator, found });
    }
    let text = parse_string_literal(raw);
    Ok(Command::Say { text })
}

} // verus!
