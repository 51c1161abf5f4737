use vstd::prelude::*;
use crate::error::Error;
use crate::merge::actions_model;
use crate::path::ActModel;
use crate::path::Action;
use crate::path::Operation;
use crate::path::TomlPath;
use crate::text::find_char;
use crate::text::int_of_text;
use crate::text::is_int_text;
use crate::text::split_char;
use crate::text::texts_model;
use crate::value::Val;
use crate::value::Node;

verus! {

/// The value a token's right-hand side denotes: an integer when the text is
/// one that fits the engine's integers, the text itself otherwise.
pub open spec fn amend_value(t: Seq<char>) -> Val {
    if is_int_text(t) && i64::MIN <= int_of_text(t) <= i64::MAX {
        Val::Int(int_of_text(t))
    } else {
        Val::Text(t)
    }
}

/// `t` holds exactly one '=': one is found, and none after it.
pub open spec fn exactly_one_eq(t: Seq<char>) -> bool {
    &&& find_char(t, '=') >= 0
    &&& find_char(t.skip(find_char(t, '=') + 1), '=') == -1
}

/// The amendment one non-flag token denotes under the current mode, or
/// nothing when the token is malformed: `path=value` for assignment and
/// modification, a bare path for deletion.
pub open spec fn token_action(t: Seq<char>, mode: Operation) -> Option<ActModel> {
    if mode is Delete {
        if find_char(t, '=') == -1 {
            Some(ActModel { path: split_char(t, '.'), op: mode, val: None })
        } else {
            None
        }
    } else {
        if exactly_one_eq(t) {
            let i = find_char(t, '=');
            Some(
                ActModel {
                    path: split_char(t.take(i), '.'),
                    op: mode,
                    val: Some(amend_value(t.skip(i + 1))),
                },
            )
        } else {
            None
        }
    }
}

/// Result of reading a token list: the amendments, or the first token that
/// could not be read.
pub enum TokParse {
    Parsed(Seq<ActModel>),
    Bad(Seq<char>),
}

/// Read a flat token list, left to right: `-a`, `-m` and `-d` switch the
/// mode for the tokens after them; every other token denotes one amendment
/// under the current mode.
pub open spec fn parse_tokens(toks: Seq<Seq<char>>, mode: Operation) -> TokParse
    decreases toks.len(),
{
    if toks.len() == 0 {
        TokParse::Parsed(Seq::empty())
    } else {
        let t = toks[0];
        if t == "-a"@ {
            parse_tokens(toks.skip(1), Operation::Assign)
        } else if t == "-m"@ {
            parse_tokens(toks.skip(1), Operation::Modify)
        } else if t == "-d"@ {
            parse_tokens(toks.skip(1), Operation::Delete)
        } else {
            match token_action(t, mode) {
                Some(a) => {
                    match parse_tokens(toks.skip(1), mode) {
                        TokParse::Parsed(acts) => TokParse::Parsed(seq![a] + acts),
                        TokParse::Bad(b) => TokParse::Bad(b),
                    }
                },
                None => TokParse::Bad(t),
            }
        }
    }
}

/// Turn one non-flag token into an amendment under `mode`.
fn token_to_action(tok: &String, mode: Operation) -> (r: Result<Action, Error>)
    ensures
        match token_action(tok@, mode) {
            Some(a) => r matches Ok(act) && act@ == a && act@.wf(),
            None => r matches Err(e) && (e matches Error::InvalidArg(s) && s@ == tok@),
        },
{
    let s = tok.as_str();
    let eq_pos = crate::text::find_char_in(s, '=');
    proof {
        crate::text::lemma_find_char(s@, '=');
    }
    match mode {
        Operation::Delete => {
            match eq_pos {
                None => {
                    let path = TomlPath::parse(s);
                    Ok(Action::delete(path))
                },
                Some(_) => Err(Error::InvalidArg(crate::value::clone_string(tok))),
            }
        },
        _ => {
            match eq_pos {
                Some(i) => {
                    let n = s.unicode_len();
                    let rest = s.substring_char(i + 1, n);
                    proof {
                        assert(rest@ =~= tok@.skip(i + 1));
                    }
                    if let Some(_) = crate::text::find_char_in(rest, '=') {
                        return Err(Error::InvalidArg(crate::value::clone_string(tok)));
                    }
                    let path_text = s.substring_char(0, i);
                    proof {
                        assert(path_text@ =~= tok@.take(i as int));
                    }
                    let path = TomlPath::parse(path_text);
                    let value = match crate::text::parse_int(rest) {
                        Some(v) => Node::Int(v),
                        None => Node::Text(rest.to_owned()),
                    };
                    proof {
                        assert(crate::value::value_model(value) == amend_value(tok@.skip(
                            i + 1,
                        )));
                    }
                    match mode {
                        Operation::Assign => Ok(Action::assign(path, value)),
                        _ => Ok(Action::modify(path, value)),
                    }
                },
                None => Err(Error::InvalidArg(crate::value::clone_string(tok))),
            }
        },
    }
}

/// Read a flat list of amendment tokens into pending amendments; the first
/// malformed token aborts the reading.
pub fn parse_amendments(tokens: &Vec<String>) -> (r: Result<Vec<Action>, Error>)
    ensures
        match parse_tokens(texts_model(tokens@), Operation::Modify) {
            TokParse::Parsed(acts) => r matches Ok(v) && actions_model(v@) == acts && (forall|
                i: int,
            |
                0 <= i < v@.len() ==> (#[trigger] v@[i])@.wf()),
            TokParse::Bad(b) => r matches Err(e) && (e matches Error::InvalidArg(s) && s@ == b),
        },
{
    proof {
        reveal_strlit("-a");
        reveal_strlit("-m");
        reveal_strlit("-d");
    }
    let ghost full = texts_model(tokens@);
    let flag_a = String::from_str("-a");
    let flag_m = String::from_str("-m");
    let flag_d = String::from_str("-d");
    let mut out: Vec<Action> = Vec::new();
    let mut mode = Operation::Modify;
    let mut i: usize = 0;
    proof {
        assert(full.skip(0) =~= full);
    }
    while i < tokens.len()
        invariant
            i <= tokens@.len(),
            full == texts_model(tokens@),
            flag_a@ == "-a"@,
            flag_m@ == "-m"@,
            flag_d@ == "-d"@,
            forall|j: int| 0 <= j < out@.len() ==> (#[trigger] out@[j])@.wf(),
            match parse_tokens(full.skip(i as int), mode) {
                TokParse::Parsed(rest) => parse_tokens(full, Operation::Modify)
                    == TokParse::Parsed(actions_model(out@) + rest),
                TokParse::Bad(b) => parse_tokens(full, Operation::Modify) == TokParse::Bad(b),
            },
        decreases tokens@.len() - i,
    {
        let tok = &tokens[i];
        proof {
            assert(full.skip(i as int)[0] == tok@);
            assert(full.skip(i as int).skip(1) =~= full.skip(i as int + 1));
        }
        if tok.eq(&flag_a) {
            mode = Operation::Assign;
        } else if tok.eq(&flag_m) {
            mode = Operation::Modify;
        } else if tok.eq(&flag_d) {
            mode = Operation::Delete;
        } else {
            match token_to_action(tok, mode) {
                Ok(act) => {
                    let ghost out0 = out@;
                    out.push(act);
                    proof {
                        assert(actions_model(out@) =~= actions_model(out0) + seq![act@]);
                        match parse_tokens(full.skip(i as int + 1), mode) {
                            TokParse::Parsed(rest) => {
                                assert(parse_tokens(full.skip(i as int), mode)
                                    == TokParse::Parsed(seq![act@] + rest));
                                assert((actions_model(out0) + seq![act@]) + rest
                                    =~= actions_model(out0) + (seq![act@] + rest));
                            },
                            TokParse::Bad(_) => {},
                        }
                    }
                },
                Err(e) => {
                    return Err(e);
                },
            }
        }
        i = i + 1;
    }
    proof {
        assert(full.skip(tokens@.len() as int) =~= Seq::<Seq<char>>::empty());
        assert(actions_model(out@) + Seq::<ActModel>::empty() =~= actions_model(out@));
    }
    Ok(out)
}

} // verus!
