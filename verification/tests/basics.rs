//! Texts, numbers, paths, JSON values, and what starts a program.

use dapintar::build_tools::Output;
use dapintar::files::{Entry, Tree};
use dapintar::jdwp::Location;
use dapintar::json::{from_value, parse_json, print_json, to_value, Json};
use dapintar::launcher::{launch, local_address, parse_jdwp_port, PortLine};
use dapintar::main_class::{MainClass, Unreadable};
use dapintar::number::{decimal_text, hex_text, read_unsigned, signed_decimal_text, signed_text};
use dapintar::path::{
    is_same_path, join_path, name_stem, path_extension, path_file_name, parts_within,
};
use dapintar::server::events::derive_termination_cause;
use dapintar::server::launch::{choose_main, Launch, Step};
use dapintar::server::lines::{nearest_line, MAX_GAP};
use dapintar::server::{signature_to_binary_name, tag_for_signature};
use dapintar::text::{
    append, chars_of, has_part, has_prefix, join_texts, last_index, same_text, split_lines,
    string_of, trimmed,
};
use dapintar::types::{Capabilities, DapEvent, DapRequest, DapResponse};
use serde_json::Value;

fn chars(s: &str) -> Vec<char> {
    s.chars().collect()
}

fn value(text: &str) -> Value {
    serde_json::from_str(text).unwrap()
}

#[test]
fn texts_are_taken_apart_and_put_together() {
    assert_eq!(chars_of("a\u{e9}\u{1f600}"), ['a', '\u{e9}', '\u{1f600}']);
    assert_eq!(string_of(&['a', '\u{e9}', '\u{1f600}']), "a\u{e9}\u{1f600}");
    let mut s = "ab".to_string();
    append(&mut s, "\u{e9}c");
    assert_eq!(s, "ab\u{e9}c");
    assert_eq!(join_texts(&["a".to_string(), "".to_string(), "b".to_string()], ", "), "a, , b");
    assert_eq!(join_texts(&[], ", "), "");
    assert!(same_text("abc", "abc"));
    assert!(!same_text("abc", "abd"));
    assert!(!same_text("abc", "ab"));
}

#[test]
fn texts_are_searched() {
    assert!(has_part(&chars("xabcx"), "abc"));
    assert!(has_part(&chars(""), ""));
    assert!(!has_part(&chars("ab"), "abc"));
    assert!(has_prefix(&chars("abc"), "ab"));
    assert!(!has_prefix(&chars("abc"), "bc"));
    assert_eq!(last_index(&chars("a:b:c"), ':'), Some(3));
    assert_eq!(last_index(&chars("abc"), ':'), None);
}

#[test]
fn spaces_around_are_taken_away() {
    assert_eq!(trimmed(&chars(" \t\u{a0}a b\u{3000}\r\n")), chars("a b"));
    assert_eq!(trimmed(&chars("  ")), chars(""));
    // No space, though nothing shows.
    assert_eq!(trimmed(&chars("\u{200b}a")), chars("\u{200b}a"));
}

#[test]
fn lines_end_with_their_breaks() {
    let lines = |s: &str| -> Vec<String> {
        split_lines(&chars(s)).iter().map(|l| l.iter().collect()).collect()
    };
    for s in ["", "a", "a\n", "a\nb", "\n\n", "a\r\nb\r\n", "a\rb\n", "a\n\r", "\r"] {
        let want: Vec<&str> = s.lines().collect();
        assert_eq!(lines(s), want, "{s:?}");
    }
}

#[test]
fn numbers_are_written() {
    assert_eq!(decimal_text(0), "0");
    assert_eq!(decimal_text(u64::MAX), "18446744073709551615");
    assert_eq!(hex_text(0), "0x0");
    assert_eq!(hex_text(0xdeadbeef), "0xdeadbeef");
    assert_eq!(signed_text(0xffff, 0x8000), "-1");
    assert_eq!(signed_text(0x7fff, 0x8000), "32767");
    assert_eq!(signed_decimal_text(i64::MIN), "-9223372036854775808");
    assert_eq!(signed_decimal_text(7), "7");
}

#[test]
fn numbers_are_read() {
    for s in ["0", "65535", "+5", "007", "65536", "", "+", "-1", "1 ", "1a", "99999999999999999999"] {
        let want = s.parse::<u16>().ok().map(|n| n as u64);
        assert_eq!(read_unsigned(&chars(s), 65535), want, "{s:?}");
    }
    for n in [0, 9, 10, 1234567890123456789, u64::MAX] {
        assert_eq!(read_unsigned(&chars_of(&decimal_text(n)), u64::MAX), Some(n));
    }
}

#[test]
fn paths_are_compared_by_their_parts() {
    let same = |a: &str, b: &str| {
        assert_eq!(
            is_same_path(a, b),
            std::path::Path::new(a) == std::path::Path::new(b),
            "{a:?} {b:?}"
        );
    };
    for a in ["/a/b", "/a//b/", "a/b", "./a/b", "/a/./b", "/a/../b", "", "/", ".", "a"] {
        for b in ["/a/b", "/a//b/", "a/b", "./a/b", "/a/./b", "/a/../b", "", "/", ".", "a"] {
            same(a, b);
        }
    }
}

#[test]
fn paths_are_joined() {
    for a in ["/a", "/a/", "", "a", "/"] {
        for b in ["b", "/b", "", "b/c", "./b"] {
            assert_eq!(
                join_path(a, b),
                std::path::Path::new(a).join(b).to_string_lossy(),
                "{a:?} {b:?}"
            );
        }
    }
}

#[test]
fn paths_have_names_and_extensions() {
    for s in ["/a/B.java", "/a/.hidden", "a/b.c.d", "x.", "/", "", "a/..", "a/b/", "..", ".x.y"] {
        let p = std::path::Path::new(s);
        let name = path_file_name(s).map(|v| v.iter().collect::<String>());
        assert_eq!(name.as_deref(), p.file_name().map(|n| n.to_str().unwrap()), "{s:?}");
        assert_eq!(
            path_extension(s).as_deref(),
            p.extension().map(|n| n.to_str().unwrap()),
            "{s:?}"
        );
        if let Some(v) = path_file_name(s) {
            let stem: String = name_stem(&v).iter().collect();
            assert_eq!(Some(stem.as_str()), p.file_stem().map(|n| n.to_str().unwrap()), "{s:?}");
        }
    }
}

#[test]
fn path_within_another() {
    assert_eq!(parts_within("/a", "/a/b/c"), Some(vec![chars("b"), chars("c")]));
    assert_eq!(parts_within("/a", "/ab"), None);
    assert_eq!(parts_within("/a", "a/b"), None);
    assert_eq!(parts_within("/a/b", "/a"), None);
}

#[test]
fn json_keeps_what_it_holds() {
    for text in [
        "null",
        "true",
        "18446744073709551615",
        "-9223372036854775808",
        "1.5",
        "-0.25e10",
        r#""a\u00e9\n\"\\""#,
        "[]",
        "[1,[2,{}]]",
        r#"{"b":1,"a":{"c":[null,false,"x"]}}"#,
    ] {
        let v = value(text);
        let j = from_value(&v);
        assert_eq!(to_value(&j), v, "{text}");
        assert_eq!(value(&print_json(&j)), v, "{text}");
        let parsed = parse_json(text.as_bytes()).unwrap();
        assert_eq!(to_value(&parsed), v, "{text}");
    }
    assert_eq!(
        parse_json(b"{").unwrap_err(),
        "EOF while parsing an object at line 1 column 1"
    );
    assert!(parse_json(b"").is_err());
    assert!(parse_json(&[0x22, 0xff, 0x22]).is_err());
    // The last of two members of one name counts.
    assert_eq!(to_value(&parse_json(br#"{"a":1,"a":2}"#).unwrap()), value(r#"{"a":2}"#));
}

#[test]
fn json_is_built_and_read() {
    let j = Json::object()
        .with("n", Json::Unsigned(3))
        .with("t", Json::from_text("x"))
        .with("m", Json::Negative(-3))
        .with("n", Json::Unsigned(4));
    assert_eq!(print_json(&j), r#"{"m":-3,"n":4,"t":"x"}"#);
    assert_eq!(j.get("n").unwrap().as_unsigned(), Some(4));
    assert_eq!(j.get("m").unwrap().as_unsigned(), None);
    assert_eq!(j.get("t").unwrap().as_text(), Some("x"));
    assert!(j.get("x").is_none());
    assert!(j.as_items().is_none());
    assert!(from_value(&value("1.0")).as_unsigned().is_none());
    assert_eq!(from_value(&value("[1,2]")).as_items().unwrap().len(), 2);
}

#[test]
fn requests_are_read() {
    let j = from_value(&value(
        r#"{"seq": 3, "type": "request", "command": "next", "arguments": {"a": 1}, "more": []}"#,
    ));
    let r = DapRequest::read(&j).unwrap();
    assert_eq!((r.seq, r.type_.as_str(), r.command.as_str()), (3, "request", "next"));
    assert_eq!(r.argument("a").unwrap().as_unsigned(), Some(1));
    assert!(r.argument("b").is_none());
    // Arguments that are null count as none.
    let j = from_value(&value(r#"{"seq": 3, "type": "x", "command": "", "arguments": null}"#));
    assert!(DapRequest::read(&j).unwrap().arguments.is_none());
    let j = from_value(&value(r#"{"seq": "3", "type": "request", "command": "next"}"#));
    assert!(DapRequest::read(&j).is_none());
}

#[test]
fn responses_and_events_are_laid_out() {
    let ok = DapResponse::ok(2, 1, "next", None).to_json();
    assert_eq!(
        to_value(&ok),
        value(r#"{"seq":2,"type":"response","requestSeq":1,"success":true,"command":"next"}"#)
    );
    let ok = DapResponse::ok(2, 1, "x", Some(Json::Null)).to_json();
    assert_eq!(to_value(&ok)["body"], Value::Null);
    let err = DapResponse::err(2, 1, "next", "no").to_json();
    assert_eq!(
        to_value(&err),
        value(
            r#"{"seq":2,"type":"response","requestSeq":1,"success":false,"command":"next","message":"no"}"#
        )
    );
    let event = DapEvent::new(5, "stopped", Some(Json::object())).to_json();
    assert_eq!(to_value(&event), value(r#"{"seq":5,"type":"event","event":"stopped","body":{}}"#));
    assert!(!Capabilities::default().supports_configuration_done_request);
    assert_eq!(
        to_value(&Capabilities::default().to_json()),
        value(r#"{"supportsConfigurationDoneRequest":false}"#)
    );
}

#[test]
fn java_is_started_suspended() {
    let run = launch("/p", &["/p/a".to_string(), "/p/b.jar".to_string()], "com.example.Main", ":");
    assert_eq!(run.program, "java");
    assert_eq!(run.dir, "/p");
    assert_eq!(
        run.args,
        [
            "-agentlib:jdwp=transport=dt_socket,server=y,suspend=y,address=0",
            "-cp",
            "/p/a:/p/b.jar",
            "com.example.Main"
        ]
    );
    assert!(run.script.is_none());
}

#[test]
fn port_is_read_from_its_line() {
    let line = |s: &str| parse_jdwp_port(&format!("Listening for transport dt_socket at address: {s}"));
    assert_eq!(line("54321"), PortLine::Port(54321));
    assert_eq!(line("127.0.0.1:8000 "), PortLine::Port(8000));
    assert_eq!(line("[::1]:0"), PortLine::Port(0));
    assert_eq!(
        line("localhost"),
        PortLine::Bad("could not parse JDWP port from 'localhost': invalid digit found in string".to_string())
    );
    assert_eq!(
        line("a:70000"),
        PortLine::Bad(
            "could not parse JDWP port from 'a:70000': number too large to fit in target type"
                .to_string()
        )
    );
    assert_eq!(parse_jdwp_port("Hello"), PortLine::Other);
    assert_eq!(
        parse_jdwp_port(" Listening for transport dt_socket at address: 1"),
        PortLine::Other
    );
    assert_eq!(local_address(8000), "127.0.0.1:8000");
}

#[test]
fn signatures_are_read() {
    assert_eq!(signature_to_binary_name("Lcom/example/Main;"), "com/example/Main");
    assert_eq!(signature_to_binary_name("[I"), "[I");
    assert_eq!(signature_to_binary_name("L;"), "");
    assert_eq!(signature_to_binary_name("L"), "");
    assert_eq!(signature_to_binary_name(""), "");
    assert_eq!(tag_for_signature("I"), 0x49);
    assert_eq!(tag_for_signature("[I"), 0x4c);
    assert_eq!(tag_for_signature("Ljava/lang/String;"), 0x4c);
    assert_eq!(tag_for_signature(""), 0x4c);
    // The first byte, not the first character.
    assert_eq!(tag_for_signature("\u{e9}"), 0xc3);
}

#[test]
fn termination_is_told_by_the_exception() {
    assert_eq!(derive_termination_cause(None), "clean_exit");
    assert_eq!(derive_termination_cause(Some("Ljava/lang/OutOfMemoryError;")), "out_of_memory");
    assert_eq!(derive_termination_cause(Some("LMyOutOfMemoryErrorX;")), "out_of_memory");
    assert_eq!(derive_termination_cause(Some("")), "uncaught_exception");
}

#[test]
fn nearest_line_is_at_or_after() {
    let at = |line: u32, index: u64| (line, Location { type_tag: 1, class_id: 1, method_id: 1, index });
    let lines = vec![at(9, 0), at(4, 1), at(6, 2), at(4, 3)];
    assert_eq!(MAX_GAP, 2);
    // Of two places on one line, the first.
    assert_eq!(nearest_line(&lines, 4), Some(at(4, 1)));
    assert_eq!(nearest_line(&lines, 3), Some(at(4, 1)));
    assert_eq!(nearest_line(&lines, 2), Some(at(4, 1)));
    assert_eq!(nearest_line(&lines, 1), None);
    assert_eq!(nearest_line(&lines, 5), Some(at(6, 2)));
    assert_eq!(nearest_line(&lines, 7), Some(at(9, 0)));
    assert_eq!(nearest_line(&lines, 10), None);
    assert_eq!(nearest_line(&lines, u32::MAX), None);
}

#[test]
fn main_class_is_chosen() {
    let main = |name: &str| MainClass {
        fully_qualified_name: name.to_string(),
        source_file: "/s".to_string(),
    };
    assert_eq!(choose_main(Some("X"), Ok(vec![main("A")]), "/p"), Ok("X".to_string()));
    assert_eq!(choose_main(None, Ok(vec![main("A"), main("B")]), "/p"), Ok("A".to_string()));
    assert_eq!(
        choose_main(None, Ok(vec![]), "/p\n"),
        Err("no main class found under \"/p\\n\"; provide 'mainClass' in launch configuration"
            .to_string())
    );
    let gone = Unreadable { why: "no access".to_string() };
    assert_eq!(choose_main(None, Err(gone), "/p"), Err("no access".to_string()));
}

#[test]
fn launch_without_a_build_tool_runs_nothing() {
    let mut l =
        Launch::new("/p".to_string(), Some("Main".to_string()), "/tmp".to_string(), ":".to_string());
    assert!(matches!(&l.step, Step::ProbeTool { paths } if paths.len() == 5));
    l.probed(vec![]);
    assert!(matches!(&l.step, Step::ProbeSourceRoots { paths } if paths.len() == 3));
    l.probed(vec!["/p/src/main/java".to_string()]);
    assert_eq!(l.step, Step::ReadSources { roots: vec!["/p/src/main/java".to_string()] });
    l.read(vec![Tree { path: "/p/src/main/java".to_string(), entries: vec![] }]);
    assert!(matches!(&l.step, Step::ProbeClasspath { paths } if paths.len() == 4));
    l.probed(vec!["/p/out/production/classes".to_string()]);
    assert_eq!(
        l.step,
        Step::ReadClasses { classpath: vec!["/p/out/production/classes".to_string()] }
    );
    l.read(vec![]);
    assert_eq!(l.step, Step::ProbeSources { paths: vec![] });
    l.probed(vec![]);
    match &l.step {
        Step::Start { run } => {
            assert_eq!(run.args[2], "/p/out/production/classes");
            assert_eq!(run.args[3], "Main");
        }
        _ => panic!("not started"),
    }
    assert!(l.source_map.is_empty());
}

#[test]
fn launch_fails_as_its_steps_do() {
    let start = || {
        let mut l = Launch::new("/p".to_string(), None, "/tmp".to_string(), ":".to_string());
        l.probed(vec!["/p/build.gradle".to_string()]);
        assert!(matches!(l.step, Step::Build { .. }));
        l
    };
    let out = |success: bool, stdout: &str| {
        Ok(Output { success, stdout: stdout.as_bytes().to_vec(), stderr: b"bad".to_vec() })
    };

    let mut l = start();
    l.ran(Err("not found".to_string()));
    assert_eq!(
        l.step,
        Step::Failed { message: "failed to execute gradle: not found".to_string() }
    );

    let mut l = start();
    l.ran(out(false, "x: error: y\n"));
    assert_eq!(l.step, Step::BuildFailed { errors: vec!["x: error: y".to_string()] });

    let mut l = start();
    l.ran(out(true, ""));
    assert!(matches!(l.step, Step::AskSourceRoots { .. }));
    l.ran(out(false, ""));
    assert_eq!(l.step, Step::Failed { message: "gradle failed: bad".to_string() });

    let mut l = start();
    l.ran(out(true, ""));
    l.ran(out(true, "/p/src"));
    l.probed(vec!["/p/src".to_string()]);
    let gone = Entry::File { name: "A.kt".to_string(), bytes: Err("no access".to_string()) };
    l.read(vec![Tree { path: "/p/src".to_string(), entries: vec![gone] }]);
    assert_eq!(l.step, Step::Failed { message: "no access".to_string() });

    let mut l = start();
    l.main_class = Some("Main".to_string());
    l.ran(out(true, ""));
    l.ran(out(true, ""));
    l.probed(vec![]);
    l.read(vec![]);
    assert!(matches!(l.step, Step::AskClasspath { .. }));
    l.ran(Err("gone".to_string()));
    assert_eq!(
        l.step,
        Step::Failed { message: "failed to execute gradle for classpath: gone".to_string() }
    );
}
