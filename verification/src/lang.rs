//! The client's command language: a line such as `CREATE DATABASE shop` is
//! parsed into a [`Command`].
//!
//! A line is split into whitespace-separated tokens; the leading tokens
//! pick the command and the third token carries the name. The grammar is
//! modelled by `spec_tokens` and `spec_parse_lang`, and the executable
//! functions are proved to follow them exactly.

use vstd::prelude::*;
use vstd::string::StrSliceExecFns;

use crate::command::{Command, CommandView};

verus! {

/// A command-language parse error.
#[derive(Clone, Copy, Debug, PartialEq, Eq, Structural)]
pub enum ParseError {
    InvalidCommand,
}

/// The whitespace characters that separate tokens.
pub open spec fn is_ws(c: char) -> bool {
    c == ' ' || c == '\t' || c == '\r' || c == '\n'
}

/// The length of the leading run of non-whitespace characters.
pub open spec fn first_ws(s: Seq<char>) -> int
    decreases s.len(),
{
    if s.len() == 0 {
        0
    } else if is_ws(s[0]) {
        0
    } else {
        1 + first_ws(s.drop_first())
    }
}

/// `first_ws` is the position of the first whitespace character (or the
/// length, where there is none).
pub proof fn lemma_first_ws_is(s: Seq<char>, n: int)
    requires
        0 <= n <= s.len(),
        forall|k: int| 0 <= k < n ==> !is_ws(s[k]),
        n == s.len() || is_ws(s[n]),
    ensures
        first_ws(s) == n,
    decreases n,
{
    if n > 0 {
        assert(!is_ws(s[0]));
        assert forall|k: int| 0 <= k < n - 1 implies !is_ws(s.drop_first()[k]) by {
            assert(s.drop_first()[k] == s[k + 1]);
        }
        if n < s.len() {
            assert(s.drop_first()[n - 1] == s[n]);
        }
        lemma_first_ws_is(s.drop_first(), n - 1);
    }
}

/// The whitespace-separated tokens of a character sequence: the maximal
/// runs of non-whitespace characters, in order.
pub open spec fn spec_tokens(s: Seq<char>) -> Seq<Seq<char>>
    decreases s.len(),
{
    if s.len() == 0 {
        Seq::empty()
    } else if is_ws(s[0]) {
        spec_tokens(s.drop_first())
    } else {
        let n = spec_first_ws_pos(s);
        seq![s.take(n)] + spec_tokens(s.skip(n))
    }
}

/// `first_ws`, clipped into `1 ..= s.len()` so that `spec_tokens` visibly
/// terminates; on a sequence starting with non-whitespace the two agree.
pub open spec fn spec_first_ws_pos(s: Seq<char>) -> int {
    if 1 <= first_ws(s) <= s.len() {
        first_ws(s)
    } else {
        s.len() as int
    }
}

/// What a token list means as a command. The first token picks the verb;
/// a name, where one is needed, is the third token, and later tokens are
/// ignored.
pub open spec fn spec_parse_lang(toks: Seq<Seq<char>>) -> Result<CommandView, ParseError> {
    if toks.len() == 0 {
        Err(ParseError::InvalidCommand)
    } else if toks[0] == "CREATE"@ {
        if toks.len() >= 3 && (toks[1] == "DATABASE"@ || toks[1] == "DB"@) {
            Ok(CommandView::CreateDatabase { name: toks[2] })
        } else if toks.len() >= 3 && toks[1] == "TABLE"@ {
            Ok(CommandView::CreateTable { name: toks[2] })
        } else {
            Err(ParseError::InvalidCommand)
        }
    } else if toks[0] == "OPEN"@ {
        if toks.len() >= 3 {
            Ok(CommandView::OpenDatabase { name: toks[2] })
        } else {
            Err(ParseError::InvalidCommand)
        }
    } else if toks[0] == "LIST"@ {
        if toks.len() >= 2 && (toks[1] == "DATABASES"@ || toks[1] == "DBS"@) {
            Ok(CommandView::ListDatabases)
        } else if toks.len() >= 2 && toks[1] == "TABLES"@ {
            Ok(CommandView::ListTables)
        } else {
            Err(ParseError::InvalidCommand)
        }
    } else {
        Err(ParseError::InvalidCommand)
    }
}

/// Whether `c` separates tokens.
fn is_ws_exec(c: char) -> (r: bool)
    ensures
        r == is_ws(c),
{
    c == ' ' || c == '\t' || c == '\r' || c == '\n'
}

/// Splits a command line into its whitespace-separated tokens.
pub fn tokenize(command: &str) -> (tokens: Vec<String>)
    ensures
        tokens.deep_view() == spec_tokens(command@),
{
    let n = command.unicode_len();
    let mut tokens: Vec<String> = Vec::new();
    let mut i: usize = 0;
    proof {
        assert(command@.skip(0) =~= command@);
        assert(tokens.deep_view() + spec_tokens(command@.skip(0)) =~= spec_tokens(command@.skip(0)));
    }
    while i < n
        invariant
            n == command@.len(),
            i <= n,
            spec_tokens(command@) == tokens.deep_view() + spec_tokens(command@.skip(i as int)),
        decreases n - i,
    {
        let ghost done = tokens.deep_view();
        let ghost suffix = command@.skip(i as int);
        let c = command.get_char(i);
        proof {
            assert(suffix[0] == command@[i as int]);
        }
        if is_ws_exec(c) {
            proof {
                assert(suffix.drop_first() =~= command@.skip(i as int + 1));
            }
            i = i + 1;
        } else {
            let start = i;
            let mut end = i + 1;
            let mut scanning = true;
            while scanning && end < n
                invariant
                    n == command@.len(),
                    start < end <= n,
                    forall|k: int| start <= k < end ==> !is_ws(command@[k]),
                    !scanning ==> end < n && is_ws(command@[end as int]),
                decreases n - end + (if scanning {
                    1int
                } else {
                    0int
                }),
            {
                let c2 = command.get_char(end);
                if is_ws_exec(c2) {
                    scanning = false;
                } else {
                    end = end + 1;
                }
            }
            proof {
                assert forall|k: int| 0 <= k < end - start implies !is_ws(suffix[k]) by {
                    assert(suffix[k] == command@[i + k]);
                }
                if end < n {
                    assert(suffix[end - start] == command@[end as int]);
                }
                lemma_first_ws_is(suffix, end - start);
                assert(spec_first_ws_pos(suffix) == end - start);
            }
            let tok = command.substring_char(start, end).to_owned();
            tokens.push(tok);
            proof {
                assert(suffix.take(end - start) =~= command@.subrange(start as int, end as int));
                assert(suffix.skip(end - start) =~= command@.skip(end as int));
                assert(spec_tokens(suffix) == seq![suffix.take(end - start)] + spec_tokens(
                    command@.skip(end as int),
                ));
                assert(tokens.deep_view() =~= done.push(tok@));
                assert(done + (seq![tok@] + spec_tokens(command@.skip(end as int))) =~= done.push(
                    tok@,
                ) + spec_tokens(command@.skip(end as int)));
            }
            i = end;
        }
    }
    proof {
        assert(command@.skip(n as int) =~= Seq::<char>::empty());
        assert(tokens.deep_view() + Seq::<Seq<char>>::empty() =~= tokens.deep_view());
    }
    tokens
}

/// Parses one command line.
pub fn parse(user_input: String) -> (r: Result<Command, ParseError>)
    ensures
        match r {
            Ok(c) => {
                &&& spec_parse_lang(spec_tokens(user_input@)) is Ok
                &&& c@ == spec_parse_lang(spec_tokens(user_input@))->Ok_0
            },
            Err(e) => {
                &&& spec_parse_lang(spec_tokens(user_input@)) is Err
                &&& spec_parse_lang(spec_tokens(user_input@))->Err_0 == e
            },
        },
{
    let tokens = tokenize(user_input.as_str());
    parse_tokens(&tokens)
}

/// Parses an already-split token list.
fn parse_tokens(tokens: &Vec<String>) -> (r: Result<Command, ParseError>)
    ensures
        match r {
            Ok(c) => {
                &&& spec_parse_lang(tokens.deep_view()) is Ok
                &&& c@ == spec_parse_lang(tokens.deep_view())->Ok_0
            },
            Err(e) => {
                &&& spec_parse_lang(tokens.deep_view()) is Err
                &&& spec_parse_lang(tokens.deep_view())->Err_0 == e
            },
        },
{
    proof {
        if tokens@.len() > 0 {
            assert(tokens.deep_view()[0] == tokens@[0]@);
        }
        if tokens@.len() > 1 {
            assert(tokens.deep_view()[1] == tokens@[1]@);
        }
        if tokens@.len() > 2 {
            assert(tokens.deep_view()[2] == tokens@[2]@);
        }
    }
    if tokens.len() == 0 {
        return Err(ParseError::InvalidCommand);
    }
    if str_eq(tokens[0].as_str(), "CREATE") {
        if tokens.len() >= 3 && (str_eq(tokens[1].as_str(), "DATABASE") || str_eq(
            tokens[1].as_str(),
            "DB",
        )) {
            Ok(Command::CreateDatabase { name: tokens[2].clone() })
        } else if tokens.len() >= 3 && str_eq(tokens[1].as_str(), "TABLE") {
            Ok(Command::CreateTable { name: tokens[2].clone(), cols: Vec::new() })
        } else {
            Err(ParseError::InvalidCommand)
        }
    } else if str_eq(tokens[0].as_str(), "OPEN") {
        if tokens.len() >= 3 {
            Ok(Command::OpenDatabase { name: tokens[2].clone() })
        } else {
            Err(ParseError::InvalidCommand)
        }
    } else if str_eq(tokens[0].as_str(), "LIST") {
        if tokens.len() >= 2 && (str_eq(tokens[1].as_str(), "DATABASES") || str_eq(
            tokens[1].as_str(),
            "DBS",
        )) {
            Ok(Command::ListDatabases)
        } else if tokens.len() >= 2 && str_eq(tokens[1].as_str(), "TABLES") {
            Ok(Command::ListTables)
        } else {
            Err(ParseError::InvalidCommand)
        }
    } else {
        Err(ParseError::InvalidCommand)
    }
}

/// Whether two string slices hold the same characters.
fn str_eq(a: &str, b: &str) -> (r: bool)
    ensures
        r == (a@ == b@),
{
    let a_owned = a.to_owned();
    let b_owned = b.to_owned();
    a_owned == b_owned
}

/// The position of the first line break (or the length, where there is
/// none).
pub open spec fn first_nl(s: Seq<char>) -> int
    decreases s.len(),
{
    if s.len() == 0 {
        0
    } else if s[0] == '\n' {
        0
    } else {
        1 + first_nl(s.drop_first())
    }
}

/// `first_nl`, clipped into `0 ..= s.len()` so that `spec_lines` visibly
/// terminates; the two always agree.
pub open spec fn spec_first_nl_pos(s: Seq<char>) -> int {
    if 0 <= first_nl(s) <= s.len() {
        first_nl(s)
    } else {
        s.len() as int
    }
}

/// `first_nl` is the position of the first line break (or the length,
/// where there is none).
pub proof fn lemma_first_nl_is(s: Seq<char>, n: int)
    requires
        0 <= n <= s.len(),
        forall|k: int| 0 <= k < n ==> s[k] != '\n',
        n == s.len() || s[n] == '\n',
    ensures
        first_nl(s) == n,
    decreases n,
{
    if n > 0 {
        assert(s[0] != '\n');
        assert forall|k: int| 0 <= k < n - 1 implies s.drop_first()[k] != '\n' by {
            assert(s.drop_first()[k] == s[k + 1]);
        }
        if n < s.len() {
            assert(s.drop_first()[n - 1] == s[n]);
        }
        lemma_first_nl_is(s.drop_first(), n - 1);
    }
}

/// The lines of a character sequence, split at line breaks. As with the
/// usual reading of text, a final line break opens no empty last line.
pub open spec fn spec_lines(s: Seq<char>) -> Seq<Seq<char>>
    decreases s.len(),
{
    if s.len() == 0 {
        Seq::empty()
    } else {
        let n = spec_first_nl_pos(s);
        if n == s.len() {
            seq![s]
        } else {
            seq![s.take(n)] + spec_lines(s.skip(n + 1))
        }
    }
}

/// What a sequence of lines means: one command per line, all or nothing.
pub open spec fn spec_parse_lines(lines: Seq<Seq<char>>) -> Result<Seq<CommandView>, ParseError>
    decreases lines.len(),
{
    if lines.len() == 0 {
        Ok(Seq::empty())
    } else {
        match spec_parse_lang(spec_tokens(lines[0])) {
            Ok(c) => match spec_parse_lines(lines.drop_first()) {
                Ok(rest) => Ok(seq![c] + rest),
                Err(e) => Err(e),
            },
            Err(e) => Err(e),
        }
    }
}

/// Prefixing already-parsed commands onto the outcome of parsing the
/// remaining lines; used to state the parsing loop's invariant.
pub open spec fn prepend_commands(
    pre: Seq<CommandView>,
    r: Result<Seq<CommandView>, ParseError>,
) -> Result<Seq<CommandView>, ParseError> {
    match r {
        Ok(cs) => Ok(pre + cs),
        Err(e) => Err(e),
    }
}

/// Parses a multi-line script, one command per line; the first bad line
/// fails the whole script.
pub fn parse_command(input: &str) -> (r: Result<Vec<Command>, ParseError>)
    ensures
        match r {
            Ok(cmds) => {
                &&& spec_parse_lines(spec_lines(input@)) is Ok
                &&& cmds.deep_view() == spec_parse_lines(spec_lines(input@))->Ok_0
            },
            Err(e) => {
                &&& spec_parse_lines(spec_lines(input@)) is Err
                &&& spec_parse_lines(spec_lines(input@))->Err_0 == e
            },
        },
{
    let n = input.unicode_len();
    let mut cmds: Vec<Command> = Vec::new();
    let mut i: usize = 0;
    proof {
        assert(input@.skip(0) =~= input@);
        assert(cmds.deep_view() =~= Seq::<CommandView>::empty());
        if spec_parse_lines(spec_lines(input@)) is Ok {
            assert(Seq::<CommandView>::empty() + spec_parse_lines(spec_lines(input@))->Ok_0
                =~= spec_parse_lines(spec_lines(input@))->Ok_0);
        }
    }
    while i < n
        invariant
            n == input@.len(),
            i <= n,
            spec_parse_lines(spec_lines(input@)) == prepend_commands(
                cmds.deep_view(),
                spec_parse_lines(spec_lines(input@.skip(i as int))),
            ),
        decreases n - i,
    {
        let ghost done = cmds.deep_view();
        let ghost suffix = input@.skip(i as int);
        let start = i;
        let mut end = i;
        let mut scanning = true;
        while scanning && end < n
            invariant
                n == input@.len(),
                start <= end <= n,
                forall|k: int| start <= k < end ==> input@[k] != '\n',
                !scanning ==> end < n && input@[end as int] == '\n',
            decreases n - end + (if scanning {
                1int
            } else {
                0int
            }),
        {
            let c2 = input.get_char(end);
            if c2 == '\n' {
                scanning = false;
            } else {
                end = end + 1;
            }
        }
        proof {
            assert forall|k: int| 0 <= k < end - start implies suffix[k] != '\n' by {
                assert(suffix[k] == input@[i + k]);
            }
            if end < n {
                assert(suffix[end - start] == input@[end as int]);
            }
            lemma_first_nl_is(suffix, end - start);
            assert(spec_first_nl_pos(suffix) == end - start);
        }
        let line = input.substring_char(start, end).to_owned();
        let ghost cur_lines = spec_lines(suffix);
        proof {
            assert(line@ =~= suffix.take(end - start));
            if end - start == suffix.len() {
                assert(suffix.take(end - start) =~= suffix);
                assert(cur_lines == seq![suffix]);
                assert(cur_lines[0] == line@);
            } else {
                assert(cur_lines == seq![suffix.take(end - start)] + spec_lines(
                    suffix.skip(end - start + 1),
                ));
                assert(cur_lines[0] == line@);
            }
        }
        match parse(line) {
            Ok(c) => {
                cmds.push(c);
                proof {
                    assert(cmds.deep_view() =~= done.push(c@));
                    let tail_lines = if end - start == suffix.len() {
                        Seq::<Seq<char>>::empty()
                    } else {
                        spec_lines(suffix.skip(end - start + 1))
                    };
                    assert(cur_lines.drop_first() =~= tail_lines);
                    assert(spec_parse_lines(cur_lines) == (match spec_parse_lines(tail_lines) {
                        Ok(rest) => Ok::<_, ParseError>(seq![c@] + rest),
                        Err(e) => Err(e),
                    }));
                    if end < n {
                        assert(suffix.skip(end - start + 1) =~= input@.skip(end as int + 1));
                    } else {
                        assert(spec_lines(input@.skip(end as int)) =~= Seq::<Seq<char>>::empty())
                            by {
                            assert(input@.skip(end as int) =~= Seq::<char>::empty());
                        }
                    }
                    if spec_parse_lines(tail_lines) is Ok {
                        assert(done + (seq![c@] + spec_parse_lines(tail_lines)->Ok_0) =~= done.push(
                            c@,
                        ) + spec_parse_lines(tail_lines)->Ok_0);
                    }
                }
                if end < n {
                    i = end + 1;
                } else {
                    i = end;
                }
            },
            Err(e) => {
                proof {
                    assert(spec_parse_lines(cur_lines) == Err::<Seq<CommandView>, ParseError>(e));
                }
                return Err(e);
            },
        }
    }
    proof {
        assert(input@.skip(n as int) =~= Seq::<char>::empty());
        assert(cmds.deep_view() + Seq::<CommandView>::empty() =~= cmds.deep_view());
    }
    Ok(cmds)
}

} // verus!
