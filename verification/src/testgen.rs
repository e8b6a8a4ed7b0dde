//! The logic of the generator of test files: from lines of the form
//! `command,input,expected` to test cases in Plait or Rust.

use vstd::prelude::*;
use crate::text::{chars_of, starts_with, starts_with_at, str_is};

verus! {

/// The language that test files are written in.
#[derive(Clone, Copy, Debug, PartialEq, Eq)]
pub enum Language {
    Plait,
    Python,
    Rust,
}

/// What a test line checks: the printed parse, or the value of a run.
#[derive(Clone, Copy, Debug, PartialEq, Eq)]
pub enum Test {
    Parse,
    Run,
}

/// Why a test file cannot be generated.
#[derive(Debug, PartialEq, Eq)]
pub enum GenError {
    UnknownLanguage(String),
    UnknownTest(String),
    /// Python output is not written yet.
    NotYetImplemented,
    /// The line (with its number, from 1) is not three fields split by commas.
    MalformedLine(usize, String),
}

pub enum GenErrorModel {
    UnknownLanguage(Seq<char>),
    UnknownTest(Seq<char>),
    NotYetImplemented,
    MalformedLine(usize, Seq<char>),
}

impl View for GenError {
    type V = GenErrorModel;

    open spec fn view(&self) -> GenErrorModel {
        match self {
            GenError::UnknownLanguage(s) => GenErrorModel::UnknownLanguage(s@),
            GenError::UnknownTest(s) => GenErrorModel::UnknownTest(s@),
            GenError::NotYetImplemented => GenErrorModel::NotYetImplemented,
            GenError::MalformedLine(n, s) => GenErrorModel::MalformedLine(*n, s@),
        }
    }
}

/// ASCII upper case letters to lower case; other characters unchanged.
pub open spec fn ascii_lower(c: char) -> char {
    if 'A' <= c <= 'Z' {
        ((c as u32) + 32) as char
    } else {
        c
    }
}

pub open spec fn lower(s: Seq<char>) -> Seq<char> {
    s.map_values(|c: char| ascii_lower(c))
}

/// The language that a name stands for, in any case.
pub open spec fn spec_language(s: Seq<char>) -> Result<Language, GenErrorModel> {
    if lower(s) == "plait"@ {
        Ok(Language::Plait)
    } else if lower(s) == "python"@ {
        Ok(Language::Python)
    } else if lower(s) == "rust"@ {
        Ok(Language::Rust)
    } else {
        Err(GenErrorModel::UnknownLanguage(s))
    }
}

fn lower_char(c: char) -> (r: char)
    ensures
        r == ascii_lower(c),
{
    if 'A' <= c && c <= 'Z' {
        ((c as u8) + 32) as char
    } else {
        c
    }
}

/// Whether `s`, with its ASCII letters in lower case, is `target`.
fn lower_is(s: &str, target: &str) -> (b: bool)
    ensures
        b == (lower(s@) == target@),
{
    let a = chars_of(s);
    let t = chars_of(target);
    if a.len() != t.len() {
        return false;
    }
    let mut i: usize = 0;
    while i < a.len()
        invariant
            a@ == s@,
            t@ == target@,
            a.len() == t.len(),
            i <= a.len(),
            forall|j: int| 0 <= j < i ==> ascii_lower(a@[j]) == t@[j],
        decreases a.len() - i,
    {
        if lower_char(a[i]) != t[i] {
            assert(lower(s@)[i as int] != target@[i as int]);
            return false;
        }
        i = i + 1;
    }
    assert(lower(s@) =~= target@);
    true
}

impl Language {
    /// The language named `s`: `plait`, `python` or `rust`, in any case.
    ///
    /// Upper case is taken as lower case by `str::to_lowercase`; the only
    /// letters that lower to those of the three names are their ASCII upper
    /// case forms, so comparing ASCII-lowered text gives the same answer.
    pub fn parse(s: &str) -> (r: Result<Language, GenError>)
        ensures
            match r {
                Ok(l) => spec_language(s@) == Ok::<Language, GenErrorModel>(l),
                Err(e) => spec_language(s@) == Err::<Language, GenErrorModel>(e@),
            },
    {
        if lower_is(s, "plait") {
            Ok(Language::Plait)
        } else if lower_is(s, "python") {
            Ok(Language::Python)
        } else if lower_is(s, "rust") {
            Ok(Language::Rust)
        } else {
            Err(GenError::UnknownLanguage(s.to_owned()))
        }
    }
}

/// The command of a test line.
pub open spec fn spec_test(s: Seq<char>) -> Result<Test, GenErrorModel> {
    if s == "parse"@ {
        Ok(Test::Parse)
    } else if s == "run"@ {
        Ok(Test::Run)
    } else {
        Err(GenErrorModel::UnknownTest(s))
    }
}

/// The name of a command.
pub open spec fn test_name(t: Test) -> Seq<char> {
    match t {
        Test::Parse => "parse"@,
        Test::Run => "run"@,
    }
}

impl Test {
    /// The command named `s`: `parse` or `run`, exactly.
    pub fn parse(s: &str) -> (r: Result<Test, GenError>)
        ensures
            match r {
                Ok(t) => spec_test(s@) == Ok::<Test, GenErrorModel>(t),
                Err(e) => spec_test(s@) == Err::<Test, GenErrorModel>(e@),
            },
    {
        if str_is(s, "parse") {
            Ok(Test::Parse)
        } else if str_is(s, "run") {
            Ok(Test::Run)
        } else {
            Err(GenError::UnknownTest(s.to_owned()))
        }
    }

    /// The name of the command, which is also the name of the function
    /// that the generated tests call.
    pub fn to_str(self) -> (r: &'static str)
        ensures
            r@ == test_name(self),
    {
        match self {
            Test::Parse => "parse",
            Test::Run => "run",
        }
    }
}

/// The name of a command is parsed back to the command.
pub proof fn lemma_test_name_roundtrip(t: Test)
    ensures
        spec_test(test_name(t)) == Ok::<Test, GenErrorModel>(t),
{
    reveal_strlit("parse");
    reveal_strlit("run");
    assert("parse"@.len() != "run"@.len());
}

/// The three language names, in any case of their ASCII letters, name
/// their languages, and every other text is an unknown language.
pub proof fn lemma_language_names(s: Seq<char>)
    ensures
        lower(s) == seq!['p', 'l', 'a', 'i', 't'] ==> spec_language(s) == Ok::<
            Language,
            GenErrorModel,
        >(Language::Plait),
        lower(s) == seq!['p', 'y', 't', 'h', 'o', 'n'] ==> spec_language(s) == Ok::<
            Language,
            GenErrorModel,
        >(Language::Python),
        lower(s) == seq!['r', 'u', 's', 't'] ==> spec_language(s) == Ok::<Language, GenErrorModel>(
            Language::Rust,
        ),
        lower(s) != seq!['p', 'l', 'a', 'i', 't'] && lower(s) != seq!['p', 'y', 't', 'h', 'o', 'n']
            && lower(s) != seq!['r', 'u', 's', 't'] ==> spec_language(s) == Err::<
            Language,
            GenErrorModel,
        >(GenErrorModel::UnknownLanguage(s)),
{
    reveal_strlit("plait");
    reveal_strlit("python");
    reveal_strlit("rust");
    assert("plait"@ =~= seq!['p', 'l', 'a', 'i', 't']);
    assert("python"@ =~= seq!['p', 'y', 't', 'h', 'o', 'n']);
    assert("rust"@ =~= seq!['r', 'u', 's', 't']);
}

/// Lowering is idempotent.
proof fn lemma_lower_idempotent(s: Seq<char>)
    ensures
        lower(lower(s)) == lower(s),
{
    assert(lower(lower(s)) =~= lower(s));
}

/// The name of a language may be written in any case: a name and its lower
/// case form name the same language.
pub proof fn lemma_language_ignores_case(s: Seq<char>)
    ensures
        spec_language(s) is Ok <==> spec_language(lower(s)) is Ok,
        spec_language(s) is Ok ==> spec_language(s) == spec_language(lower(s)),
{
    lemma_lower_idempotent(s);
}

/// The Rust header opens a module of tests whose function `test_all` is
/// marked `#[test]`, so that the generated assertions run under
/// `cargo test`: it starts with `mod evaluation;` and ends with
/// `#[test]` on the line before `fn test_all() {`.
pub proof fn lemma_rust_header_marks_test()
    ensures
        (spec_header(Language::Rust) matches Ok(h) && {
            let tail = "#[test]\nfn test_all() {\n"@;
            let head = "mod evaluation;\n"@;
            &&& h.len() >= tail.len() + head.len()
            &&& h.subrange(h.len() - tail.len(), h.len() as int) == tail
            &&& h.take(head.len() as int) == head
        }),
{
    reveal_strlit("#[test]\nfn test_all() {\n");
    reveal_strlit("mod evaluation;\n");
    reveal_strlit(
        "mod evaluation;\n\n#[cfg(test)]\n\nmod tests {\n\nuse crate::evaluation::*;\n\n#[test]\nfn test_all() {\n",
    );
    let h = RUST_HEADER@;
    assert(h.subrange(h.len() - "#[test]\nfn test_all() {\n"@.len(), h.len() as int)
        =~= "#[test]\nfn test_all() {\n"@);
    assert(h.take("mod evaluation;\n"@.len() as int) =~= "mod evaluation;\n"@);
}

/// Whether a line expects an error depends on its third field alone, for
/// every command: a well-formed line whose third field is `EXCEPTION:`
/// followed by `m` gives a `test/exn` case expecting `m` in Plait, and no
/// case in Rust.
pub proof fn lemma_exception_marker_for_every_command(n: usize, line: Seq<char>)
    requires
        line.len() > 0,
        line[0] != '#',
        split_commas(line).len() == 3,
        spec_test(split_commas(line)[0]) is Ok,
        starts_with(split_commas(line)[2], exception_marker()),
    ensures
        ({
            let parts = split_commas(line);
            let test = spec_test(parts[0])->Ok_0;
            let m = parts[2].skip(10);
            &&& spec_data_line(Language::Plait, n, line) == Ok::<
                Option<Seq<char>>,
                GenErrorModel,
            >(Some(spec_line_plait(test, true, parts[1], m)))
            &&& (spec_data_line(Language::Plait, n, line) matches Ok(Some(o)) && o.len() >= 11
                && o.take(11) == seq!['(', 't', 'e', 's', 't', '/', 'e', 'x', 'n', ' ', '('])
            &&& spec_data_line(Language::Rust, n, line) == Ok::<Option<Seq<char>>, GenErrorModel>(
                Some(Seq::empty()),
            )
        }),
{
    reveal_strlit("(");
    reveal_strlit("test/exn");
    reveal_strlit(" (");
    let parts = split_commas(line);
    let test = spec_test(parts[0])->Ok_0;
    let m = parts[2].skip(10);
    let o = spec_line_plait(test, true, parts[1], m);
    let rest = test_name(test) + " `"@ + parts[1] + ") "@ + ("\""@ + m + "\""@) + ")\n"@;
    assert(o =~= "("@ + "test/exn"@ + " ("@ + rest);
    assert(o.take(11) =~= seq!['(', 't', 'e', 's', 't', '/', 'e', 'x', 'n', ' ', '(']);
}

/// What a well-formed line without the error marker gives: in Plait,
/// `(test (parse `input) expected)` for a parse and
/// `(test (run `input) "expected")` for a run; in Rust, an `assert_eq!` of
/// `parse(input)` against `expected` for a parse, and nothing for a run.
pub proof fn lemma_plain_lines(n: usize, line: Seq<char>)
    requires
        line.len() > 0,
        line[0] != '#',
        split_commas(line).len() == 3,
        spec_test(split_commas(line)[0]) is Ok,
        !starts_with(split_commas(line)[2], exception_marker()),
    ensures
        ({
            let parts = split_commas(line);
            let input = parts[1];
            let expected = parts[2];
            &&& spec_test(parts[0]) == Ok::<Test, GenErrorModel>(Test::Parse) ==> {
                &&& spec_data_line(Language::Plait, n, line) == Ok::<
                    Option<Seq<char>>,
                    GenErrorModel,
                >(Some("(test (parse `"@ + input + ") "@ + expected + ")\n"@))
                &&& spec_data_line(Language::Rust, n, line) == Ok::<
                    Option<Seq<char>>,
                    GenErrorModel,
                >(
                    Some(
                        "    assert_eq!(parse(\""@ + input + "\").unwrap(), \""@ + expected
                            + "\");\n"@,
                    ),
                )
            }
            &&& spec_test(parts[0]) == Ok::<Test, GenErrorModel>(Test::Run) ==> {
                &&& spec_data_line(Language::Plait, n, line) == Ok::<
                    Option<Seq<char>>,
                    GenErrorModel,
                >(Some("(test (run `"@ + input + ") \""@ + expected + "\")\n"@))
                &&& spec_data_line(Language::Rust, n, line) == Ok::<
                    Option<Seq<char>>,
                    GenErrorModel,
                >(Some(Seq::empty()))
            }
        }),
{
    reveal_strlit("(");
    reveal_strlit("test");
    reveal_strlit(" (");
    reveal_strlit("parse");
    reveal_strlit("run");
    reveal_strlit(" `");
    reveal_strlit("(test (parse `");
    reveal_strlit("(test (run `");
    reveal_strlit("    assert_eq!(");
    reveal_strlit("(\"");
    reveal_strlit("    assert_eq!(parse(\"");
    let parts = split_commas(line);
    let input = parts[1];
    let expected = parts[2];
    assert("("@ + "test"@ + " ("@ + "parse"@ + " `"@ =~= "(test (parse `"@);
    assert("("@ + "test"@ + " ("@ + "run"@ + " `"@ =~= "(test (run `"@);
    assert("    assert_eq!("@ + "parse"@ + "(\""@ =~= "    assert_eq!(parse(\""@);
    if spec_test(parts[0]) == Ok::<Test, GenErrorModel>(Test::Parse) {
        assert(spec_line_plait(Test::Parse, false, input, expected) =~= "(test (parse `"@ + input
            + ") "@ + expected + ")\n"@);
        assert(spec_line_rust(Test::Parse, false, input, expected) =~= "    assert_eq!(parse(\""@
            + input + "\").unwrap(), \""@ + expected + "\");\n"@);
    }
    if spec_test(parts[0]) == Ok::<Test, GenErrorModel>(Test::Run) {
        reveal_strlit(") ");
        reveal_strlit("\"");
        reveal_strlit(") \"");
        reveal_strlit(")\n");
        reveal_strlit("\")\n");
        assert(") "@ + "\""@ =~= ") \""@);
        assert("\""@ + ")\n"@ =~= "\")\n"@);
        assert(spec_line_plait(Test::Run, false, input, expected) =~= "(test (run `"@ + input
            + ") \""@ + expected + "\")\n"@);
    }
}

/// The start of a Plait test file.
pub const PLAIT_HEADER: &'static str = "\n#lang plait\n\n(print-only-errors #true)\n(require \"evaluation.rkt\")\n\n";

/// The start of a Rust test file.
pub const RUST_HEADER: &'static str = "mod evaluation;\n\n#[cfg(test)]\n\nmod tests {\n\nuse crate::evaluation::*;\n\n#[test]\nfn test_all() {\n";

/// The end of a Rust test file.
pub const RUST_FOOTER: &'static str = "    }\n}\nfn main() { }\n";

pub open spec fn spec_header(language: Language) -> Result<Seq<char>, GenErrorModel> {
    match language {
        Language::Plait => Ok(PLAIT_HEADER@),
        Language::Rust => Ok(RUST_HEADER@),
        Language::Python => Err(GenErrorModel::NotYetImplemented),
    }
}

pub open spec fn spec_footer(language: Language) -> Result<Seq<char>, GenErrorModel> {
    match language {
        Language::Plait => Ok(""@),
        Language::Rust => Ok(RUST_FOOTER@),
        Language::Python => Err(GenErrorModel::NotYetImplemented),
    }
}

pub open spec fn static_view(r: Result<&'static str, GenError>) -> Result<Seq<char>, GenErrorModel> {
    match r {
        Ok(s) => Ok(s@),
        Err(e) => Err(e@),
    }
}

/// The text that starts a test file in the language.
pub fn header(language: Language) -> (r: Result<&'static str, GenError>)
    ensures
        static_view(r) == spec_header(language),
        language == Language::Plait ==> (r matches Ok(h) && h@
            == "\n#lang plait\n\n(print-only-errors #true)\n(require \"evaluation.rkt\")\n\n"@),
        language == Language::Rust ==> (r matches Ok(h) && h@
            == "mod evaluation;\n\n#[cfg(test)]\n\nmod tests {\n\nuse crate::evaluation::*;\n\n#[test]\nfn test_all() {\n"@),
        language == Language::Python ==> r matches Err(GenError::NotYetImplemented),
{
    match language {
        Language::Plait => Ok(PLAIT_HEADER),
        Language::Rust => Ok(RUST_HEADER),
        Language::Python => Err(GenError::NotYetImplemented),
    }
}

/// The text that ends a test file in the language.
pub fn footer(language: Language) -> (r: Result<&'static str, GenError>)
    ensures
        static_view(r) == spec_footer(language),
        language == Language::Plait ==> (r matches Ok(h) && h@.len() == 0),
        language == Language::Rust ==> (r matches Ok(h) && h@ == "    }\n}\nfn main() { }\n"@),
        language == Language::Python ==> r matches Err(GenError::NotYetImplemented),
{
    match language {
        Language::Plait => {
            proof {
                reveal_strlit("");
            }
            Ok("")
        },
        Language::Rust => Ok(RUST_FOOTER),
        Language::Python => Err(GenError::NotYetImplemented),
    }
}

/// A Plait test case: `(test (parse `input) expected)`, with `test/exn`
/// for an expected error; the expected text is quoted for errors and for
/// runs.
pub open spec fn spec_line_plait(test: Test, exception: bool, input: Seq<char>, expected: Seq<char>) -> Seq<char> {
    let test_function = if exception {
        "test/exn"@
    } else {
        "test"@
    };
    let quote_output = match test {
        Test::Parse => exception,
        Test::Run => true,
    };
    let expected = if quote_output {
        "\""@ + expected + "\""@
    } else {
        expected
    };
    "("@ + test_function + " ("@ + test_name(test) + " `"@ + input + ") "@ + expected + ")\n"@
}

/// A Rust test case: an `assert_eq!` of a parse; nothing for runs and for
/// expected errors.
pub open spec fn spec_line_rust(test: Test, exception: bool, input: Seq<char>, expected: Seq<char>) -> Seq<char> {
    if test == Test::Run || exception {
        Seq::empty()
    } else {
        "    assert_eq!("@ + test_name(test) + "(\""@ + input + "\").unwrap(), \""@ + expected
            + "\");\n"@
    }
}

/// The Plait test case for one test line.
pub fn line_plait(test: Test, exception: bool, input: &str, expected: &str) -> (r: String)
    ensures
        r@ == spec_line_plait(test, exception, input@, expected@),
{
    let test_function = if exception {
        "test/exn"
    } else {
        "test"
    };
    let quote_output = match test {
        Test::Parse => exception,
        Test::Run => true,
    };
    let mut out = String::new();
    out.append("(");
    out.append(test_function);
    out.append(" (");
    out.append(test.to_str());
    out.append(" `");
    out.append(input);
    out.append(") ");
    if quote_output {
        out.append("\"");
        out.append(expected);
        out.append("\"");
    } else {
        out.append(expected);
    }
    out.append(")\n");
    assert(out@ =~= spec_line_plait(test, exception, input@, expected@));
    out
}

/// The Rust test case for one test line.
pub fn line_rust(test: Test, exception: bool, input: &str, expected: &str) -> (r: String)
    ensures
        r@ == spec_line_rust(test, exception, input@, expected@),
{
    let mut out = String::new();
    let is_run = match test {
        Test::Run => true,
        Test::Parse => false,
    };
    if is_run || exception {
        return out;
    }
    out.append("    assert_eq!(");
    out.append(test.to_str());
    out.append("(\"");
    out.append(input);
    out.append("\").unwrap(), \"");
    out.append(expected);
    out.append("\");\n");
    assert(out@ =~= spec_line_rust(test, exception, input@, expected@));
    out
}

/// The fields of a line split at each comma (`str::split(',')`): one more
/// field than there are commas, empty fields included.
pub open spec fn split_commas(s: Seq<char>) -> Seq<Seq<char>>
    decreases s.len(),
{
    if s.len() == 0 {
        seq![Seq::empty()]
    } else {
        let parts = split_commas(s.drop_last());
        if s.last() == ',' {
            parts.push(Seq::empty())
        } else {
            parts.update(parts.len() - 1, parts.last().push(s.last()))
        }
    }
}

pub open spec fn str_views(v: Seq<&str>) -> Seq<Seq<char>> {
    Seq::new(v.len(), |i: int| v[i]@)
}

/// The fields of `line` between its commas.
fn split_commas_str<'a>(line: &'a str) -> (parts: Vec<&'a str>)
    ensures
        str_views(parts@) == split_commas(line@),
{
    let cs = chars_of(line);
    let mut parts: Vec<&'a str> = Vec::new();
    let mut start: usize = 0;
    assert(cs@.take(0) =~= Seq::<char>::empty());
    assert(str_views(parts@).push(cs@.subrange(0, 0)) =~= split_commas(cs@.take(0)));
    for i in 0..cs.len()
        invariant
            cs@ == line@,
            start <= i,
            split_commas(cs@.take(i as int)) == str_views(parts@).push(
                cs@.subrange(start as int, i as int),
            ),
    {
        let ghost before = str_views(parts@);
        assert(cs@.take(i + 1).drop_last() =~= cs@.take(i as int));
        assert(cs@.take(i + 1).last() == cs@[i as int]);
        if cs[i] == ',' {
            let ghost old_start = start;
            parts.push(line.substring_char(start, i));
            start = i + 1;
            assert(str_views(parts@) =~= before.push(cs@.subrange(old_start as int, i as int)));
            assert(cs@.subrange(start as int, i + 1) =~= Seq::<char>::empty());
            assert(split_commas(cs@.take(i + 1)) == split_commas(cs@.take(i as int)).push(
                Seq::empty(),
            ));
            assert(split_commas(cs@.take(i + 1)) =~= str_views(parts@).push(
                cs@.subrange(start as int, i + 1),
            ));
        } else {
            assert(cs@.subrange(start as int, i + 1) =~= cs@.subrange(start as int, i as int).push(
                cs@[i as int],
            ));
            assert(split_commas(cs@.take(i + 1)) =~= str_views(parts@).push(
                cs@.subrange(start as int, i + 1),
            ));
        }
    }
    let ghost before = str_views(parts@);
    parts.push(line.substring_char(start, cs.len()));
    assert(cs@.take(cs@.len() as int) =~= cs@);
    assert(str_views(parts@) =~= before.push(cs@.subrange(start as int, cs@.len() as int)));
    parts
}

/// The marker that starts the expected text of a test whose input must
/// fail.
pub open spec fn exception_marker() -> Seq<char> {
    seq!['E', 'X', 'C', 'E', 'P', 'T', 'I', 'O', 'N', ':']
}

/// The test case for one line of a test description, numbered from 1:
/// nothing for an empty line or a comment (a line that starts with `#`);
/// else the line must be `command,input,expected`, where an expected text
/// that starts with `EXCEPTION:` expects an error with the rest of it.
pub open spec fn spec_data_line(language: Language, line_number: usize, line: Seq<char>) -> Result<
    Option<Seq<char>>,
    GenErrorModel,
> {
    if line.len() == 0 || line[0] == '#' {
        Ok(None)
    } else {
        let parts = split_commas(line);
        if parts.len() != 3 {
            Err(GenErrorModel::MalformedLine(line_number, line))
        } else {
            match spec_test(parts[0]) {
                Err(e) => Err(e),
                Ok(test) => {
                    let exception = starts_with(parts[2], exception_marker());
                    let expected = if exception {
                        parts[2].skip(10)
                    } else {
                        parts[2]
                    };
                    match language {
                        Language::Plait => Ok(
                            Some(spec_line_plait(test, exception, parts[1], expected)),
                        ),
                        Language::Rust => Ok(
                            Some(spec_line_rust(test, exception, parts[1], expected)),
                        ),
                        Language::Python => Err(GenErrorModel::NotYetImplemented),
                    }
                },
            }
        }
    }
}

pub open spec fn line_view(r: Result<Option<String>, GenError>) -> Result<Option<Seq<char>>, GenErrorModel> {
    match r {
        Ok(Some(s)) => Ok(Some(s@)),
        Ok(None) => Ok(None),
        Err(e) => Err(e@),
    }
}

/// The test case that one line of a test description gives, if any.
pub fn data_line(language: Language, line_number: usize, line: &str) -> (r: Result<Option<String>, GenError>)
    ensures
        line_view(r) == spec_data_line(language, line_number, line@),
{
    let cs = chars_of(line);
    if cs.len() == 0 || cs[0] == '#' {
        return Ok(None);
    }
    let parts = split_commas_str(line);
    assert(str_views(parts@).len() == parts@.len());
    if parts.len() != 3 {
        return Err(GenError::MalformedLine(line_number, line.to_owned()));
    }
    assert(str_views(parts@)[0] == parts@[0]@);
    assert(str_views(parts@)[1] == parts@[1]@);
    assert(str_views(parts@)[2] == parts@[2]@);
    let test = match Test::parse(parts[0]) {
        Ok(t) => t,
        Err(e) => return Err(e),
    };
    let last = parts[2];
    let last_chars = chars_of(last);
    let exception = starts_with_at(&last_chars, 0, &['E', 'X', 'C', 'E', 'P', 'T', 'I', 'O', 'N', ':']);
    assert(last_chars@.skip(0) =~= last@);
    let expected = if exception {
        last.substring_char(10, last_chars.len())
    } else {
        last
    };
    assert(exception ==> expected@ =~= last@.skip(10));
    match language {
        Language::Plait => Ok(Some(line_plait(test, exception, parts[1], expected))),
        Language::Rust => Ok(Some(line_rust(test, exception, parts[1], expected))),
        Language::Python => Err(GenError::NotYetImplemented),
    }
}

} // verus!
