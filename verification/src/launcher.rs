//! Starting a JVM that waits for a debugger.

use vstd::prelude::*;
use crate::build_tools::{ToolRun, ToolRunView};
use crate::number::{
    decimal, decimal_text, law_decimal_text_reads_back, law_digits_stand_for_the_number,
    parse_unsigned, read_unsigned,
};
use crate::text::{
    append, chars_of, has_prefix, is_space, join, join_texts, last_index, last_index_of,
    law_joining_goes_from_text_to_text, lemma_last_index_of, owned, slice_of, starts_with, string_of, texts, trim, trim_end,
    trim_start, trimmed,
};

verus! {

/// Starts the JVM with `main_class` on the given class path, to wait for a debugger on a port
/// of its choice before it runs anything. `separator` stands between the entries of a class
/// path.
pub open spec fn java_call(
    working_dir: Seq<char>,
    classpath: Seq<Seq<char>>,
    main_class: Seq<char>,
    separator: Seq<char>,
) -> ToolRunView {
    ToolRunView {
        program: "java"@,
        dir: working_dir,
        args: seq![
            "-agentlib:jdwp=transport=dt_socket,server=y,suspend=y,address=0"@,
            "-cp"@,
            join(classpath, separator),
            main_class,
        ],
        script: None,
    }
}

/// What to run to start the JVM.
pub fn launch(working_dir: &str, classpath: &[String], main_class: &str, separator: &str) -> (r:
    ToolRun)
    ensures
        r@ == java_call(working_dir@, texts(classpath@), main_class@, separator@),
{
    let mut args: Vec<String> = Vec::new();
    args.push(owned("-agentlib:jdwp=transport=dt_socket,server=y,suspend=y,address=0"));
    args.push(owned("-cp"));
    args.push(join_texts(classpath, separator));
    args.push(owned(main_class));
    let r = ToolRun { program: owned("java"), dir: owned(working_dir), args, script: None };
    assert(r@.args =~= java_call(
        working_dir@,
        texts(classpath@),
        main_class@,
        separator@,
    ).args);
    r
}

/// What a line that the JVM printed says of its port.
#[derive(Debug, PartialEq, Eq)]
pub enum PortLine {
    /// Nothing.
    Other,
    Port(u16),
    /// The address has no port, and this says so.
    Bad(String),
}

/// What stands for the port in an address: what follows the last colon, or the whole address.
pub open spec fn port_text(address: Seq<char>) -> Seq<char> {
    address.skip(last_index_of(address, ':') + 1)
}

/// What the error of `str::parse` says of a text that is no `u16`.
pub uninterp spec fn port_fault(text: Seq<char>) -> Seq<char>;

/// Calls `str::parse::<u16>` for what its error says, which depends on the text alone. Nothing
/// is said of the words, nor of a text that can be parsed.
#[verifier::external_body]
fn parse_fault(text: &str) -> (s: String)
    requires
        parse_unsigned(text@, 0xFFFF) is None,
    ensures
        s@ == port_fault(text@),
{
    match text.parse::<u16>() {
        Ok(_) => String::new(),
        Err(e) => e.to_string(),
    }
}

/// Reads the line by which the JVM says where it waits for a debugger, which is a port, or a
/// host and a port.
pub fn parse_jdwp_port(line: &str) -> (r: PortLine)
    ensures
        starts_with(line@, "Listening for transport dt_socket at address: "@) <==> r !is Other,
        starts_with(line@, "Listening for transport dt_socket at address: "@) ==> {
            let address = trim(line@.skip(46));
            match parse_unsigned(port_text(address), 0xFFFF) {
                Some(n) => r matches PortLine::Port(p) && p == n,
                None => r matches PortLine::Bad(message) && message@
                    == "could not parse JDWP port from '"@ + address + "': "@ + port_fault(
                    port_text(address),
                ),
            }
        },
        forall|port: u16|
            line@ == "Listening for transport dt_socket at address: "@ + #[trigger] decimal(
                port as nat,
            ) ==> r == PortLine::Port(port),
        forall|host: Seq<char>, port: u16|
            (#[trigger] host.len()) > 0 && !is_space(host[0]) && line@
                == "Listening for transport dt_socket at address: "@ + (host + seq![':']
                + #[trigger] decimal(port as nat)) ==> r == PortLine::Port(port),
{
    proof {
        reveal_strlit("Listening for transport dt_socket at address: ");
    }
    proof {
        let head = "Listening for transport dt_socket at address: "@;
        assert forall|port: u16| line@ == head + #[trigger] decimal(port as nat) implies starts_with(
            line@,
            head,
        ) && trim(line@.skip(46)) == decimal(port as nat) && parse_unsigned(
            port_text(trim(line@.skip(46))),
            0xFFFF,
        ) == Some(port as nat) by {
            let d = decimal(port as nat);
            assert(line@.subrange(0, 46) =~= head);
            assert(line@.skip(46) =~= d);
            lemma_port_read(seq![], port);
        }
        assert forall|host: Seq<char>, port: u16|
            (#[trigger] host.len()) > 0 && !is_space(host[0]) && line@ == head + (host + seq![':']
                + #[trigger] decimal(port as nat)) implies starts_with(
            line@,
            head,
        ) && parse_unsigned(port_text(trim(line@.skip(46))), 0xFFFF) == Some(port as nat) by {
            assert(line@.subrange(0, 46) =~= head);
            assert(line@.skip(46) =~= host + seq![':'] + decimal(port as nat));
            lemma_port_read(host, port);
        }
    }
    let chars = chars_of(line);
    if !has_prefix(chars.as_slice(), "Listening for transport dt_socket at address: ") {
        return PortLine::Other;
    }
    let rest = slice_of(chars.as_slice(), 46, chars.len());
    assert(rest@ =~= line@.skip(46));
    let address = trimmed(rest.as_slice());
    proof {
        lemma_last_index_of(address@, ':');
    }
    let from: usize = match last_index(address.as_slice(), ':') {
        Some(i) => i + 1,
        None => 0,
    };
    let port = slice_of(address.as_slice(), from, address.len());
    assert(port@ =~= port_text(address@));
    match read_unsigned(port.as_slice(), 0xFFFF) {
        Some(n) => PortLine::Port(n as u16),
        None => {
            let mut message = owned("could not parse JDWP port from '");
            append(&mut message, string_of(address.as_slice()).as_str());
            append(&mut message, "': ");
            append(&mut message, parse_fault(string_of(port.as_slice()).as_str()).as_str());
            PortLine::Bad(message)
        },
    }
}

proof fn lemma_port_read(host: Seq<char>, port: u16)
    requires
        host.len() > 0 ==> !is_space(host[0]),
    ensures
        ({
            let d = decimal(port as nat);
            let s = host + seq![':'] + d;
            &&& trim(d) == d
            &&& port_text(d) == d
            &&& parse_unsigned(d, 0xFFFF) == Some(port as nat)
            &&& host.len() > 0 ==> trim(s) == s && port_text(s) == d
        }),
{
    let d = decimal(port as nat);
    let s = host + seq![':'] + d;
    law_decimal_text_reads_back(port as nat, 0xFFFF);
    law_digits_stand_for_the_number(port as nat, 10);
    assert('0' <= d[0] <= '9' || 'a' <= d[0] <= 'f');
    assert('0' <= d[d.len() - 1] <= '9' || 'a' <= d[d.len() - 1] <= 'f');
    assert(!d.contains(':')) by {
        if d.contains(':') {
            let i = choose|i: int| 0 <= i < d.len() && d[i] == ':';
            assert('0' <= d[i] <= '9' || 'a' <= d[i] <= 'f');
        }
    }
    law_the_port_follows_the_last_colon(host, d);
    assert(trim_start(d) == d);
    assert(trim_end(d) == d);
    if host.len() > 0 {
        assert(s[0] == host[0]);
        assert(s.last() == d.last());
        assert(trim_start(s) == s);
        assert(trim_end(s) == s);
    }
}

/// Where to connect to a JVM on this machine.
pub fn local_address(port: u16) -> (s: String)
    ensures
        s@ == "127.0.0.1:"@ + decimal(port as nat),
{
    let mut s = owned("127.0.0.1:");
    append(&mut s, decimal_text(port as u64).as_str());
    s
}

/// The JVM is started with the debugging agent, which waits for a debugger before anything runs;
/// with the entries of the class path in their order, the separator between them; and with the
/// main class last.
pub proof fn law_the_jvm_waits_for_a_debugger(
    dir: Seq<char>,
    first: Seq<char>,
    rest: Seq<Seq<char>>,
    main_class: Seq<char>,
    separator: Seq<char>,
)
    requires
        rest.len() > 0,
    ensures
        java_call(dir, seq![first] + rest, main_class, separator) == (ToolRunView {
            program: "java"@,
            dir,
            args: seq![
                "-agentlib:jdwp=transport=dt_socket,server=y,suspend=y,address=0"@,
                "-cp"@,
                first + separator + join(rest, separator),
                main_class,
            ],
            script: None,
        }),
        java_call(dir, seq![first], main_class, separator).args[2] == first,
{
    law_joining_goes_from_text_to_text(first, rest, separator);
}

/// The port of an address is what follows its last colon, or the whole address where it has none.
pub proof fn law_the_port_follows_the_last_colon(host: Seq<char>, port: Seq<char>)
    requires
        !port.contains(':'),
    ensures
        port_text(host + seq![':'] + port) == port,
        port_text(port) == port,
{
    let s = host + seq![':'] + port;
    lemma_last_index_of(s, ':');
    lemma_last_index_of(port, ':');
    let n = last_index_of(s, ':');
    let m = last_index_of(port, ':');
    assert(s[host.len() as int] == ':');
    if n > host.len() {
        assert(port[n - host.len() - 1] == ':');
    }
    if m >= 0 {
        assert(port[m] == ':');
    }
    assert(s.skip(n + 1) =~= port);
    assert(port.skip(m + 1) =~= port);
}

} // verus!
