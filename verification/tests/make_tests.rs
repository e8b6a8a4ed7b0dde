use walk_through::testgen::{
    data_line, footer, header, line_plait, line_rust, GenError, Language, Test,
};

#[test]
fn languages() {
    assert_eq!(Language::parse("plait").unwrap(), Language::Plait);
    assert_eq!(Language::parse("PLAIT").unwrap(), Language::Plait);
    assert_eq!(Language::parse("Python").unwrap(), Language::Python);
    assert_eq!(Language::parse("rUsT").unwrap(), Language::Rust);
    assert_eq!(
        Language::parse("java"),
        Err(GenError::UnknownLanguage("java".to_string()))
    );
    assert_eq!(
        Language::parse("rust "),
        Err(GenError::UnknownLanguage("rust ".to_string()))
    );
}

#[test]
fn tests_commands() {
    assert_eq!(Test::parse("parse").unwrap(), Test::Parse);
    assert_eq!(Test::parse("run").unwrap(), Test::Run);
    assert_eq!(
        Test::parse("Run"),
        Err(GenError::UnknownTest("Run".to_string()))
    );
    assert_eq!(Test::parse(Test::Parse.to_str()).unwrap(), Test::Parse);
    assert_eq!(Test::parse(Test::Run.to_str()).unwrap(), Test::Run);
}

#[test]
fn headers_and_footers() {
    assert_eq!(
        header(Language::Plait).unwrap(),
        "\n#lang plait\n\n(print-only-errors #true)\n(require \"evaluation.rkt\")\n\n"
    );
    assert!(header(Language::Rust).unwrap().starts_with("mod evaluation;\n\n"));
    assert!(header(Language::Rust).unwrap().ends_with("fn test_all() {\n"));
    assert_eq!(header(Language::Python), Err(GenError::NotYetImplemented));
    assert_eq!(footer(Language::Plait).unwrap(), "");
    assert_eq!(footer(Language::Rust).unwrap(), "    }\n}\nfn main() { }\n");
    assert_eq!(footer(Language::Python), Err(GenError::NotYetImplemented));
}

#[test]
fn plait_lines() {
    assert_eq!(
        line_plait(Test::Parse, false, "{+ 1 2}", "(addE (numE 1) (numE 2))"),
        "(test (parse `{+ 1 2}) (addE (numE 1) (numE 2)))\n"
    );
    assert_eq!(
        line_plait(Test::Parse, true, "{", "bad"),
        "(test/exn (parse `{) \"bad\")\n"
    );
    assert_eq!(
        line_plait(Test::Run, false, "{+ 1 2}", "3"),
        "(test (run `{+ 1 2}) \"3\")\n"
    );
    assert_eq!(
        line_plait(Test::Run, true, "x", "not bound"),
        "(test/exn (run `x) \"not bound\")\n"
    );
}

#[test]
fn rust_lines() {
    assert_eq!(
        line_rust(Test::Parse, false, "{+ 1 2}", "(addE (numE 1) (numE 2))"),
        "    assert_eq!(parse(\"{+ 1 2}\").unwrap(), \"(addE (numE 1) (numE 2))\");\n"
    );
    assert_eq!(line_rust(Test::Parse, true, "{", "bad"), "");
    assert_eq!(line_rust(Test::Run, false, "1", "1"), "");
}

#[test]
fn data_lines() {
    assert_eq!(data_line(Language::Plait, 1, ""), Ok(None));
    assert_eq!(data_line(Language::Plait, 2, "# comment, with, commas"), Ok(None));
    assert_eq!(
        data_line(Language::Plait, 3, "parse,5,(numE 5)"),
        Ok(Some("(test (parse `5) (numE 5))\n".to_string()))
    );
    assert_eq!(
        data_line(Language::Plait, 4, "run,x,EXCEPTION:not bound"),
        Ok(Some("(test/exn (run `x) \"not bound\")\n".to_string()))
    );
    assert_eq!(
        data_line(Language::Rust, 5, "parse,#t,(boolE #t)"),
        Ok(Some(
            "    assert_eq!(parse(\"#t\").unwrap(), \"(boolE #t)\");\n".to_string()
        ))
    );
    assert_eq!(
        data_line(Language::Rust, 6, "run,1,1"),
        Ok(Some(String::new()))
    );
    assert_eq!(
        data_line(Language::Plait, 7, "parse,1"),
        Err(GenError::MalformedLine(7, "parse,1".to_string()))
    );
    assert_eq!(
        data_line(Language::Plait, 8, "parse,1,2,3"),
        Err(GenError::MalformedLine(8, "parse,1,2,3".to_string()))
    );
    assert_eq!(
        data_line(Language::Plait, 9, "eval,1,1"),
        Err(GenError::UnknownTest("eval".to_string()))
    );
    assert_eq!(
        data_line(Language::Python, 10, "parse,1,(numE 1)"),
        Err(GenError::NotYetImplemented)
    );
    // Empty fields are fields.
    assert_eq!(
        data_line(Language::Plait, 11, "parse,,"),
        Ok(Some("(test (parse `) )\n".to_string()))
    );
}
