//! The server against a small JVM that runs in the test: packets go both ways, as they would
//! over a connection.

use std::collections::VecDeque;

use dapintar::build_tools::Output;
use dapintar::files::{Entry, Tree};
use dapintar::jdwp::client::{handshake, Command, JdwpClient, PacketHeader, Received};
use dapintar::jdwp::event::JdwpEvent;
use dapintar::jdwp::value::Real;
use dapintar::json::{from_value, to_value, Json};
use dapintar::server::backend::Backend;
use dapintar::server::events::EventWork;
use dapintar::server::gather::Need;
use dapintar::server::launch::{Launch, Step};
use dapintar::server::session::Work;
use dapintar::server::Reply;
use serde_json::Value;

// ---------------------------------------------------------------------------
// Files
// ---------------------------------------------------------------------------

/// A disk: paths of files, and what is in them.
struct Disk {
    files: Vec<(String, Vec<u8>)>,
}

impl Disk {
    fn has(&self, path: &str) -> bool {
        let below = format!("{path}/");
        self.files.iter().any(|(p, _)| p == path || p.starts_with(&below))
    }

    fn is_dir(&self, path: &str) -> bool {
        let below = format!("{path}/");
        self.files.iter().any(|(p, _)| p.starts_with(&below))
    }

    fn entries(&self, path: &str) -> Vec<Entry> {
        let below = format!("{path}/");
        let mut seen: Vec<String> = Vec::new();
        let mut entries = Vec::new();
        for (p, bytes) in &self.files {
            if let Some(rest) = p.strip_prefix(&below) {
                match rest.split_once('/') {
                    None => entries
                        .push(Entry::File { name: rest.to_string(), bytes: Ok(bytes.clone()) }),
                    Some((name, _)) => {
                        if !seen.contains(&name.to_string()) {
                            seen.push(name.to_string());
                            entries.push(Entry::Dir {
                                name: name.to_string(),
                                entries: self.entries(&format!("{path}/{name}")),
                            });
                        }
                    }
                }
            }
        }
        entries
    }

    fn trees(&self, paths: &[String]) -> Vec<Tree> {
        paths
            .iter()
            .filter(|p| self.is_dir(p))
            .map(|p| Tree { path: p.clone(), entries: self.entries(p) })
            .collect()
    }

    fn existing(&self, paths: &[String]) -> Vec<String> {
        paths.iter().filter(|p| self.has(p)).cloned().collect()
    }
}

/// A class file with a name and a source file.
fn class_bytes(name: &str, source: &str) -> Vec<u8> {
    let mut b = vec![0xca, 0xfe, 0xba, 0xbe, 0, 0, 0, 61, 0, 5];
    for s in [name, "SourceFile", source] {
        b.push(1);
        b.extend_from_slice(&(s.len() as u16).to_be_bytes());
        b.extend_from_slice(s.as_bytes());
    }
    b.extend_from_slice(&[7, 0, 1]);
    b.extend_from_slice(&[0, 33, 0, 4, 0, 0, 0, 0, 0, 0, 0, 0]);
    b.extend_from_slice(&[0, 1, 0, 2, 0, 0, 0, 2, 0, 3]);
    b
}

/// A Gradle project of one module, with a source file and the classes compiled from it.
fn gradle_project(root: &str, source: &str, classes: &[&str]) -> Disk {
    let mut files = vec![
        (format!("{root}/build.gradle"), vec![]),
        (format!("{root}/src/main/java/{source}"), b"class C {}".to_vec()),
    ];
    for c in classes {
        files.push((format!("{root}/build/classes/java/main/{c}.class"), class_bytes(c, source)));
    }
    Disk { files }
}

// ---------------------------------------------------------------------------
// The JVM
// ---------------------------------------------------------------------------

const THREAD: u64 = 0x11;

/// A local variable: its name, its signature, its slot, from which index on it is there, and
/// its value with its tag.
struct Var {
    name: &'static str,
    signature: &'static str,
    slot: u32,
    from: u64,
    value: Vec<u8>,
}

/// A method: its name, its lines (index and line number) and its variables.
struct Method {
    name: &'static str,
    lines: Vec<(u64, u32)>,
    vars: Vec<Var>,
}

struct Class {
    name: &'static str,
    methods: Vec<Method>,
}

/// What the program does next.
#[derive(Clone, Copy)]
enum Op {
    /// Loads a class.
    Load(usize),
    /// Is at an index of a method of a class, with so many frames below it.
    At(usize, usize, u64, usize),
    /// Throws an exception of the class, which nothing catches.
    Throw(usize),
}

#[derive(Clone, Copy)]
enum Watch {
    Prepare,
    Exception,
    Break(u64, u64, u64),
    Single(u32, usize),
}

struct Jvm {
    classes: Vec<Class>,
    program: Vec<Op>,
    exit_code: i32,
    at: usize,
    loaded: Vec<usize>,
    stack: Vec<(usize, usize, u64)>,
    watches: Vec<(u32, Watch)>,
    next_request: u32,
    /// Packets on their way to the server.
    outgoing: VecDeque<Vec<u8>>,
    suspended: u32,
    ended: bool,
}

fn put_text(b: &mut Vec<u8>, s: &str) {
    b.extend_from_slice(&(s.len() as u32).to_be_bytes());
    b.extend_from_slice(s.as_bytes());
}

fn u64_at(d: &[u8], i: usize) -> u64 {
    u64::from_be_bytes(d[i..i + 8].try_into().unwrap())
}

fn u32_at(d: &[u8], i: usize) -> u32 {
    u32::from_be_bytes(d[i..i + 4].try_into().unwrap())
}

/// Numbers of classes and methods.
fn class_id(c: usize) -> u64 {
    0x100 + c as u64
}

fn method_id(m: usize) -> u64 {
    0x200 + m as u64
}

impl Jvm {
    fn new(classes: Vec<Class>, program: Vec<Op>, exit_code: i32) -> Jvm {
        Jvm {
            classes,
            program,
            exit_code,
            at: 0,
            loaded: Vec::new(),
            stack: Vec::new(),
            watches: Vec::new(),
            next_request: 7,
            outgoing: VecDeque::new(),
            suspended: 1,
            ended: false,
        }
    }

    fn location(&self, place: (usize, usize, u64)) -> Vec<u8> {
        let mut b = vec![1];
        b.extend_from_slice(&class_id(place.0).to_be_bytes());
        b.extend_from_slice(&method_id(place.1).to_be_bytes());
        b.extend_from_slice(&place.2.to_be_bytes());
        b
    }

    /// Sends a report of one event, and suspends all threads.
    fn report(&mut self, kind: u8, request: u32, payload: &[u8]) {
        let mut data = vec![2, 0, 0, 0, 1, kind];
        data.extend_from_slice(&request.to_be_bytes());
        data.extend_from_slice(payload);
        let mut packet = (11 + data.len() as u32).to_be_bytes().to_vec();
        packet.extend_from_slice(&[0, 0, 0x77, 0, 0, 64, 100]);
        packet.extend_from_slice(&data);
        self.outgoing.push_back(packet);
        self.suspended += 1;
    }

    /// Runs until something stops it.
    fn run(&mut self) {
        while self.suspended == 0 && !self.ended {
            if self.at == self.program.len() {
                self.ended = true;
                self.report(99, 0, &[]);
                return;
            }
            let op = self.program[self.at];
            self.at += 1;
            match op {
                Op::Load(c) => {
                    self.loaded.push(c);
                    let watch =
                        self.watches.iter().find(|(_, w)| matches!(w, Watch::Prepare)).copied();
                    if let Some((id, _)) = watch {
                        let mut b = THREAD.to_be_bytes().to_vec();
                        b.push(1);
                        b.extend_from_slice(&class_id(c).to_be_bytes());
                        put_text(&mut b, &format!("L{};", self.classes[c].name));
                        b.extend_from_slice(&7u32.to_be_bytes());
                        self.report(8, id, &b);
                    }
                }
                Op::At(c, m, index, below) => {
                    self.stack.truncate(below);
                    self.stack.push((c, m, index));
                    let place = (class_id(c), method_id(m), index);
                    let hit = self
                        .watches
                        .iter()
                        .find(|(_, w)| match w {
                            Watch::Break(a, b, i) => (*a, *b, *i) == place,
                            Watch::Single(depth, from) => match depth {
                                0 => true,
                                1 => self.stack.len() <= *from,
                                _ => self.stack.len() < *from,
                            },
                            _ => false,
                        })
                        .copied();
                    if let Some((id, w)) = hit {
                        let mut b = THREAD.to_be_bytes().to_vec();
                        b.extend_from_slice(&self.location((c, m, index)));
                        let kind = if matches!(w, Watch::Single(..)) { 1 } else { 2 };
                        self.report(kind, id, &b);
                    }
                }
                Op::Throw(c) => {
                    let watch =
                        self.watches.iter().find(|(_, w)| matches!(w, Watch::Exception)).copied();
                    if let Some((id, _)) = watch {
                        let mut b = THREAD.to_be_bytes().to_vec();
                        b.extend_from_slice(&self.location((0, 0, 0)));
                        b.push(0x4c);
                        b.extend_from_slice(&(0x900 + c as u64).to_be_bytes());
                        b.extend_from_slice(&[0; 25]);
                        self.report(4, id, &b);
                    }
                }
            }
        }
    }

    /// The payload of the reply to a command, or an error code.
    fn answer(&mut self, set: u8, cmd: u8, d: &[u8]) -> Result<Vec<u8>, u16> {
        if self.ended {
            return Err(112);
        }
        let mut b = Vec::new();
        match (set, cmd) {
            (1, 7) => {
                for _ in 0..5 {
                    b.extend_from_slice(&8u32.to_be_bytes());
                }
            }
            (1, 20) => {
                b.extend_from_slice(&(self.loaded.len() as u32).to_be_bytes());
                for c in &self.loaded {
                    b.push(1);
                    b.extend_from_slice(&class_id(*c).to_be_bytes());
                    put_text(&mut b, &format!("L{};", self.classes[*c].name));
                    put_text(&mut b, "");
                    b.extend_from_slice(&7u32.to_be_bytes());
                }
            }
            (1, 4) => {
                b.extend_from_slice(&2u32.to_be_bytes());
                b.extend_from_slice(&THREAD.to_be_bytes());
                b.extend_from_slice(&0x12u64.to_be_bytes());
            }
            (1, 9) => {
                if self.suspended > 0 {
                    self.suspended -= 1;
                }
            }
            (2, 1) => {
                let c = (u64_at(d, 0) - 0x100) as usize;
                put_text(&mut b, &format!("L{};", self.classes[c].name));
            }
            (2, 15) => {
                let class = &self.classes[(u64_at(d, 0) - 0x100) as usize];
                b.extend_from_slice(&(class.methods.len() as u32).to_be_bytes());
                for (i, m) in class.methods.iter().enumerate() {
                    b.extend_from_slice(&method_id(i).to_be_bytes());
                    put_text(&mut b, m.name);
                    put_text(&mut b, "()V");
                    put_text(&mut b, "");
                    b.extend_from_slice(&1u32.to_be_bytes());
                }
            }
            (6, _) => {
                let class = &self.classes[(u64_at(d, 0) - 0x100) as usize];
                let m = &class.methods[(u64_at(d, 8) - 0x200) as usize];
                if cmd == 1 {
                    b.extend_from_slice(&0u64.to_be_bytes());
                    b.extend_from_slice(&99u64.to_be_bytes());
                    b.extend_from_slice(&(m.lines.len() as u32).to_be_bytes());
                    for (index, line) in &m.lines {
                        b.extend_from_slice(&index.to_be_bytes());
                        b.extend_from_slice(&line.to_be_bytes());
                    }
                } else if m.vars.is_empty() {
                    return Err(101);
                } else {
                    b.extend_from_slice(&1u32.to_be_bytes());
                    b.extend_from_slice(&(m.vars.len() as u32).to_be_bytes());
                    for v in &m.vars {
                        b.extend_from_slice(&v.from.to_be_bytes());
                        put_text(&mut b, v.name);
                        put_text(&mut b, v.signature);
                        put_text(&mut b, "");
                        b.extend_from_slice(&(100 - v.from as u32).to_be_bytes());
                        b.extend_from_slice(&v.slot.to_be_bytes());
                    }
                }
            }
            (9, 1) => {
                b.push(1);
                b.extend_from_slice(&class_id((u64_at(d, 0) - 0x900) as usize).to_be_bytes());
            }
            (10, 1) => put_text(&mut b, "hello"),
            (11, 1) => {
                if u64_at(d, 0) != THREAD {
                    return Err(10);
                }
                put_text(&mut b, "main");
            }
            (11, 6) => {
                if u64_at(d, 0) != THREAD {
                    return Err(13);
                }
                assert_eq!((u32_at(d, 8), u32_at(d, 12)), (0, u32::MAX));
                b.extend_from_slice(&(self.stack.len() as u32).to_be_bytes());
                for (i, place) in self.stack.iter().enumerate().rev() {
                    b.extend_from_slice(&(0x500 + i as u64).to_be_bytes());
                    b.extend_from_slice(&self.location(*place));
                }
            }
            (15, 1) => {
                assert_eq!(d[1], 2);
                let id = self.next_request;
                self.next_request += 1;
                let watch = match d[0] {
                    8 => Watch::Prepare,
                    4 => Watch::Exception,
                    2 => Watch::Break(u64_at(d, 8), u64_at(d, 16), u64_at(d, 24)),
                    _ => Watch::Single(u32_at(d, 19), self.stack.len()),
                };
                self.watches.push((id, watch));
                b.extend_from_slice(&id.to_be_bytes());
            }
            (15, 2) => {
                let id = u32_at(d, 1);
                self.watches.retain(|(w, _)| *w != id);
            }
            (16, 1) => {
                let i = (u64_at(d, 8) - 0x500) as usize;
                let (c, m, _) = self.stack[i];
                let n = u32_at(d, 16) as usize;
                b.extend_from_slice(&(n as u32).to_be_bytes());
                for k in 0..n {
                    let slot = u32_at(d, 20 + 5 * k);
                    let v = self.classes[c].methods[m].vars.iter().find(|v| v.slot == slot);
                    b.extend_from_slice(&v.unwrap().value);
                }
            }
            _ => return Err(99),
        }
        Ok(b)
    }

    /// Takes a packet with a command, and gives back the packet with the reply.
    fn take(&mut self, packet: &[u8]) -> Vec<u8> {
        assert_eq!(u32_at(packet, 0) as usize, packet.len());
        let (code, data) = match self.answer(packet[9], packet[10], &packet[11..]) {
            Ok(data) => (0u16, data),
            Err(code) => (code, Vec::new()),
        };
        let mut reply = (11 + data.len() as u32).to_be_bytes().to_vec();
        reply.extend_from_slice(&packet[4..8]);
        reply.push(0x80);
        reply.extend_from_slice(&code.to_be_bytes());
        reply.extend_from_slice(&data);
        reply
    }
}

// ---------------------------------------------------------------------------
// The rig
// ---------------------------------------------------------------------------

/// The server with a disk and a JVM that is ready to be started.
struct Rig {
    backend: Backend,
    client: JdwpClient,
    disk: Disk,
    jvm: Jvm,
    running: bool,
    messages: Vec<Value>,
    seq: u64,
}

impl Rig {
    fn new(disk: Disk, jvm: Jvm) -> Rig {
        Rig {
            backend: Backend::new(),
            client: JdwpClient::connect(&handshake()).unwrap(),
            disk,
            jvm,
            running: false,
            messages: Vec::new(),
            seq: 0,
        }
    }

    fn say(&mut self, m: Json) {
        self.messages.push(to_value(&m));
    }

    fn ask(&mut self, command: &Command) -> Reply {
        let packet = self.client.send_command(command);
        let reply = self.jvm.take(&packet);
        let h = PacketHeader::read(&reply);
        assert_eq!(h.payload_len(), reply.len() - 11);
        match self.client.received(h, reply[11..].to_vec()) {
            Received::Reply { result, .. } => result,
            _ => panic!("no reply"),
        }
    }

    fn send(&mut self, commands: Vec<Command>) {
        for c in &commands {
            let _ = self.ask(c);
        }
    }

    /// Lets the JVM run, and deals with the events, until there is nothing more to do.
    fn settle(&mut self) {
        while self.running {
            self.jvm.run();
            let packet = match self.jvm.outgoing.pop_front() {
                None => return,
                Some(p) => p,
            };
            let h = PacketHeader::read(&packet);
            match self.client.received(h, packet[11..].to_vec()) {
                Received::Events(events) => {
                    for e in events {
                        self.event(e);
                    }
                }
                _ => panic!("no events"),
            }
        }
    }

    fn event(&mut self, e: JdwpEvent) {
        match self.backend.on_event(e) {
            EventWork::Nothing => {}
            EventWork::Ended => {
                self.running = false;
                let code = self.jvm.exit_code;
                let m = self.backend.terminated(Some(code));
                self.say(m);
            }
            EventWork::Send { commands } => self.send(commands),
            EventWork::Exception { mut query } => {
                while let Some(c) = query.next() {
                    let reply = self.ask(&c);
                    query.supply(&reply);
                }
                let commands = self.backend.exception_seen(query);
                self.send(commands);
            }
            EventWork::Prepare { mut preparation } => {
                while let Some(c) = preparation.next() {
                    let reply = self.ask(&c);
                    preparation.supply(&reply);
                }
                let (messages, commands) = self.backend.class_prepared(&preparation);
                for m in messages {
                    self.say(m);
                }
                self.send(commands);
            }
            EventWork::Stopped { before, mut builder, thread_id, reason } => {
                self.send(before);
                while let Some(need) = builder.next() {
                    match need {
                        Need::Command(c) => {
                            let reply = self.ask(&c);
                            builder.supply(&reply);
                        }
                        Need::Real(Real::Double(bits)) => {
                            builder.supply_text(f64::from_bits(bits).to_string())
                        }
                        Need::Real(Real::Float(bits)) => {
                            builder.supply_text(f32::from_bits(bits).to_string())
                        }
                    }
                }
                let m = self.backend.stopped(builder, thread_id, reason);
                self.say(m);
            }
        }
    }

    fn launch(&mut self, root: String, main_class: Option<String>, request: u64) {
        let mut launch = Launch::new(root, main_class, "/tmp".to_string(), ":".to_string());
        let class_dir = |files: &Disk| {
            let mut dirs: Vec<String> = files
                .files
                .iter()
                .filter_map(|(p, _)| p.find("/build/classes/java/main/").map(|i| p[..i].to_string()))
                .map(|p| p + "/build/classes/java/main")
                .collect();
            dirs.dedup();
            dirs
        };
        let source_dirs = |files: &Disk| {
            let mut dirs: Vec<String> = files
                .files
                .iter()
                .filter_map(|(p, _)| p.find("/src/main/java/").map(|i| p[..i].to_string()))
                .map(|p| p + "/src/main/java")
                .collect();
            dirs.dedup();
            dirs
        };
        loop {
            let printed = |lines: Vec<String>| {
                Ok(Output {
                    success: true,
                    stdout: lines.join("\n").into_bytes(),
                    stderr: Vec::new(),
                })
            };
            match &launch.step {
                Step::ProbeTool { paths }
                | Step::ProbeSourceRoots { paths }
                | Step::ProbeClasspath { paths }
                | Step::ProbeSources { paths } => {
                    let existing = self.disk.existing(paths);
                    launch.probed(existing);
                }
                Step::Build { run } => {
                    assert_eq!(run.args, ["classes".to_string(), "--console=plain".to_string()]);
                    launch.ran(printed(Vec::new()));
                }
                Step::AskSourceRoots { .. } => {
                    let dirs = source_dirs(&self.disk);
                    launch.ran(printed(dirs));
                }
                Step::AskClasspath { .. } => {
                    let dirs = class_dir(&self.disk);
                    launch.ran(printed(dirs));
                }
                Step::ReadSources { roots } => {
                    let trees = self.disk.trees(roots);
                    launch.read(trees);
                }
                Step::ReadClasses { classpath } => {
                    let trees = self.disk.trees(classpath);
                    launch.read(trees);
                }
                Step::Start { run } => {
                    assert_eq!(run.program, "java");
                    let main = run.args.last().unwrap().clone();
                    if !self.jvm.classes.iter().any(|c| c.name == main) {
                        let why = "JVM stdout closed before JDWP port was advertised (bad main class or JVM crash?)";
                        let (a, b) = self.backend.launch_failed(why, request);
                        self.say(a);
                        self.say(b);
                        return;
                    }
                    break;
                }
                Step::BuildFailed { errors } => {
                    let (a, b) = self.backend.build_failed(errors, request);
                    self.say(a);
                    self.say(b);
                    return;
                }
                Step::Failed { message } => {
                    let (a, b) = self.backend.launch_failed(message, request);
                    self.say(a);
                    self.say(b);
                    return;
                }
            }
        }
        let sizes = self.ask(&JdwpClient::vm_id_sizes()).unwrap();
        assert!(JdwpClient::vm_id_sizes_reply(&sizes).unwrap().are_supported());
        self.ask(&JdwpClient::event_request_set_class_prepare()).unwrap();
        self.ask(&JdwpClient::event_request_set_exception_uncaught()).unwrap();
        self.running = true;
        let m = self.backend.launched(launch.source_map, request);
        self.say(m);
    }

    /// Handles a request, and all that comes of it. Gives back the messages that were sent.
    fn request(&mut self, command: &str, arguments: &str) -> Vec<Value> {
        self.seq += 1;
        let text = format!(
            r#"{{"seq": {}, "type": "request", "command": "{command}", "arguments": {arguments}}}"#,
            self.seq
        );
        let first = self.messages.len();
        let msg: Value = serde_json::from_str(&text).unwrap();
        let handled = self.backend.handle_message(&from_value(&msg));
        for m in handled.messages {
            self.say(m);
        }
        match handled.work {
            Work::Nothing => {}
            Work::Launch { root, main_class, request } => self.launch(root, main_class, request),
            Work::Send { commands } => self.send(commands),
            Work::Step { before, command, request, name } => {
                self.send(before);
                let reply = self.ask(&command);
                let (m, commands) = self.backend.step_answered(&reply, request, &name);
                self.say(m);
                self.send(commands);
            }
            Work::Install { before, mut installer, request } => {
                self.send(before);
                while let Some(c) = installer.next() {
                    let reply = self.ask(&c);
                    installer.supply(&reply);
                }
                let m = self.backend.breakpoints_installed(&installer, request);
                self.say(m);
            }
            Work::Stop => {
                self.running = false;
                let m = self.backend.terminated(None);
                self.say(m);
            }
        }
        self.settle();
        self.messages[first..].to_vec()
    }

    fn launch_request(&mut self, root: &str, main: &str) -> Vec<Value> {
        self.request(
            "launch",
            &format!(r#"{{"projectRoot": "{root}", "mainClass": "{main}"}}"#),
        )
    }

    fn break_at(&mut self, source: &str, line: u32) -> Vec<Value> {
        self.request(
            "setBreakpoints",
            &format!(r#"{{"source": {{"path": "{source}"}}, "breakpoints": [{{"line": {line}}}]}}"#),
        )
    }
}

/// The answers to requests without a project.
fn run_exchange(requests: &[&str]) -> Vec<Value> {
    let mut backend = Backend::new();
    let mut messages = Vec::new();
    for text in requests {
        let msg: Value = serde_json::from_str(text).unwrap();
        for m in backend.handle_message(&from_value(&msg)).messages {
            messages.push(to_value(&m));
        }
    }
    messages
}

fn event_of<'a>(msgs: &'a [Value], name: &str) -> &'a Value {
    msgs.iter().find(|m| m["event"] == name).expect("no such event")
}

fn answer_of<'a>(msgs: &'a [Value], command: &str) -> &'a Value {
    msgs.iter().find(|m| m["command"] == command).expect("no such answer")
}

// ---------------------------------------------------------------------------
// Programs
// ---------------------------------------------------------------------------

const SIMPLE: &str = "/fixtures/simple_java";
const BREAKABLE: &str = "/fixtures/breakpoints_java";
const BREAKABLE_SOURCE: &str = "/fixtures/breakpoints_java/src/main/java/Breakable.java";
const STEPABLE: &str = "/fixtures/stepable_java";
const STEPABLE_SOURCE: &str = "/fixtures/stepable_java/src/main/java/Stepable.java";

fn init(line: u32) -> Method {
    Method { name: "<init>", lines: vec![(0, line)], vars: vec![] }
}

fn int_value(n: u32) -> Vec<u8> {
    let mut b = vec![0x49];
    b.extend_from_slice(&n.to_be_bytes());
    b
}

fn int_var(name: &'static str, slot: u32, from: u64, n: u32) -> Var {
    Var { name, signature: "I", slot, from, value: int_value(n) }
}

fn simple() -> Rig {
    let main = Method { name: "main", lines: vec![(0, 3), (8, 4)], vars: vec![] };
    let classes = vec![Class { name: "Main", methods: vec![init(1), main] }];
    let program = vec![Op::Load(0), Op::At(0, 1, 0, 0), Op::At(0, 1, 8, 0)];
    Rig::new(gradle_project(SIMPLE, "Main.java", &["Main"]), Jvm::new(classes, program, 0))
}

/// Line 2 is blank; line 8 prints, with all variables in scope.
fn breakable() -> Rig {
    let mut text = vec![0x73];
    text.extend_from_slice(&0x600u64.to_be_bytes());
    let mut nothing = vec![0x4c];
    nothing.extend_from_slice(&0u64.to_be_bytes());
    let mut half = vec![0x44];
    half.extend_from_slice(&0.5f64.to_bits().to_be_bytes());
    let main = Method {
        name: "main",
        lines: vec![(0, 4), (3, 5), (6, 6), (10, 7), (14, 8), (22, 9)],
        vars: vec![
            int_var("a", 1, 3, 10),
            int_var("b", 2, 6, 20),
            int_var("c", 3, 10, 30),
            Var { name: "msg", signature: "Ljava/lang/String;", slot: 4, from: 14, value: text },
            Var { name: "none", signature: "[I", slot: 5, from: 14, value: nothing },
            Var { name: "half", signature: "D", slot: 6, from: 14, value: half },
            int_var("late", 7, 22, 99),
        ],
    };
    let classes = vec![Class { name: "Breakable", methods: vec![init(1), main] }];
    let mut program = vec![Op::Load(0)];
    for index in [0, 3, 6, 10, 14, 22] {
        program.push(Op::At(0, 1, index, 0));
    }
    Rig::new(
        gradle_project(BREAKABLE, "Breakable.java", &["Breakable"]),
        Jvm::new(classes, program, 0),
    )
}

/// Line 4 is in `add`, which line 10 of `main` calls.
fn stepable() -> Rig {
    let add = Method { name: "add", lines: vec![(0, 4)], vars: vec![int_var("x", 0, 0, 10)] };
    let main = Method {
        name: "main",
        lines: vec![(0, 8), (3, 9), (6, 10), (12, 11), (20, 12)],
        vars: vec![],
    };
    let classes = vec![Class { name: "Stepable", methods: vec![init(1), add, main] }];
    let program = vec![
        Op::Load(0),
        Op::At(0, 2, 0, 0),
        Op::At(0, 2, 3, 0),
        Op::At(0, 2, 6, 0),
        Op::At(0, 1, 0, 1),
        Op::At(0, 2, 9, 0),
        Op::At(0, 2, 12, 0),
        Op::At(0, 2, 20, 0),
    ];
    Rig::new(
        gradle_project(STEPABLE, "Stepable.java", &["Stepable"]),
        Jvm::new(classes, program, 0),
    )
}

fn throwing(root: &str, name: &'static str, exception: &'static str) -> Rig {
    let main = Method { name: "main", lines: vec![(0, 3)], vars: vec![] };
    let classes = vec![
        Class { name, methods: vec![init(1), main] },
        Class { name: exception, methods: vec![] },
    ];
    let program = vec![Op::Load(0), Op::At(0, 1, 0, 0), Op::Throw(1)];
    Rig::new(gradle_project(root, &format!("{name}.java"), &[name]), Jvm::new(classes, program, 1))
}

/// Launches, and runs to a breakpoint at the line. Gives back the thread that has stopped.
fn stop_at(rig: &mut Rig, root: &str, main: &str, source: &str, line: u32) -> u64 {
    rig.request("initialize", r#"{"adapterID": "dapintar"}"#);
    rig.launch_request(root, main);
    rig.break_at(source, line);
    let msgs = rig.request("configurationDone", "null");
    event_of(&msgs, "stopped")["body"]["threadId"].as_u64().expect("no threadId")
}

fn setup_breakpoint_hit() -> (Rig, u64) {
    let mut rig = breakable();
    let thread = stop_at(&mut rig, BREAKABLE, "Breakable", BREAKABLE_SOURCE, 8);
    (rig, thread)
}

fn setup_step_hit(line: u32) -> (Rig, u64) {
    let mut rig = stepable();
    let thread = stop_at(&mut rig, STEPABLE, "Stepable", STEPABLE_SOURCE, line);
    (rig, thread)
}

fn top_frame(rig: &mut Rig, thread: u64) -> Value {
    let msgs = rig.request("stackTrace", &format!(r#"{{"threadId": {thread}}}"#));
    answer_of(&msgs, "stackTrace")["body"]["stackFrames"][0].clone()
}

fn top_frame_name(rig: &mut Rig, thread: u64) -> String {
    top_frame(rig, thread)["name"].as_str().unwrap_or("").to_string()
}

// ---------------------------------------------------------------------------
// Requests without a session
// ---------------------------------------------------------------------------

#[test]
fn test_initialize_response_and_initialized_event() {
    let msgs = run_exchange(&[
        r#"{"seq": 1, "type": "request", "command": "initialize", "arguments": {"adapterID": "dapintar"}}"#,
    ]);

    assert_eq!(msgs.len(), 2, "expected initialize response + initialized event");
    assert_eq!(msgs[0]["command"], "initialize");
    assert_eq!(msgs[0]["success"], true);
    assert_eq!(msgs[0]["body"]["supportsConfigurationDoneRequest"], true);
    assert_eq!(msgs[1]["event"], "initialized");
}

#[test]
fn test_initialize_then_configure_handshake() {
    let msgs = run_exchange(&[
        r#"{"seq": 1, "type": "request", "command": "initialize", "arguments": {"adapterID": "dapintar"}}"#,
        r#"{"seq": 2, "type": "request", "command": "configurationDone"}"#,
    ]);

    assert_eq!(msgs.len(), 3);
    assert_eq!(msgs[0]["command"], "initialize");
    assert_eq!(msgs[1]["event"], "initialized");
    assert_eq!(msgs[2]["command"], "configurationDone");
    assert_eq!(msgs[2]["success"], true);
}

#[test]
fn test_launch_missing_project_root_returns_error() {
    let msgs = run_exchange(&[
        r#"{"seq": 1, "type": "request", "command": "launch", "arguments": {"mainClass": "Main"}}"#,
    ]);

    assert_eq!(msgs.len(), 2);
    assert_eq!(msgs[0]["command"], "launch");
    assert_eq!(msgs[0]["success"], false);
    assert_eq!(msgs[1]["event"], "terminated");
}

#[test]
fn test_unknown_command_returns_error_response() {
    let msgs = run_exchange(&[r#"{"seq": 1, "type": "request", "command": "unknownCommand"}"#]);

    assert_eq!(msgs.len(), 1);
    assert_eq!(msgs[0]["success"], false);
    assert_eq!(msgs[0]["command"], "unknownCommand");
}

#[test]
fn test_disconnect_sends_terminated_event() {
    let msgs = run_exchange(&[r#"{"seq": 1, "type": "request", "command": "disconnect"}"#]);

    assert_eq!(msgs.len(), 2);
    assert_eq!(msgs[0]["command"], "disconnect");
    assert_eq!(msgs[0]["success"], true);
    assert_eq!(msgs[1]["event"], "terminated");
}

// ---------------------------------------------------------------------------
// Launching
// ---------------------------------------------------------------------------

#[test]
fn test_launch_simple_java_jdwp_connected() {
    let mut rig = simple();
    rig.request("initialize", r#"{"adapterID": "dapintar"}"#);
    rig.launch_request(SIMPLE, "Main");
    rig.request("configurationDone", "null");
    let msgs = &rig.messages;

    assert!(
        msgs.iter().any(|m| m["command"] == "launch" && m["success"] == true),
        "expected successful launch; msgs: {msgs:?}"
    );
    assert!(
        msgs.iter().any(|m| m["event"] == "terminated"),
        "expected terminated; msgs: {msgs:?}"
    );
}

#[test]
fn test_launch_bad_main_class_sends_terminated() {
    let mut rig = simple();
    rig.launch_request(SIMPLE, "NonExistentMain");
    rig.request("configurationDone", "null");
    let msgs = &rig.messages;

    assert!(msgs.iter().any(|m| m["event"] == "terminated"), "msgs: {msgs:?}");
    assert_eq!(answer_of(msgs, "launch")["success"], false);
    assert_eq!(event_of(msgs, "terminated")["body"]["restart"], false);
}

// ---------------------------------------------------------------------------
// Breakpoints
// ---------------------------------------------------------------------------

#[test]
fn test_set_breakpoint_deferred_then_verified() {
    let mut rig = breakable();
    rig.request("initialize", r#"{"adapterID": "dapintar"}"#);
    rig.launch_request(BREAKABLE, "Breakable");
    rig.break_at(BREAKABLE_SOURCE, 4);
    rig.request("configurationDone", "null");
    let msgs = &rig.messages;

    let set_bp = answer_of(msgs, "setBreakpoints");
    assert_eq!(set_bp["success"], true);
    assert_eq!(
        set_bp["body"]["breakpoints"][0]["verified"], false,
        "should be unverified before class loads; msgs: {msgs:?}"
    );

    let bp_ev = event_of(msgs, "breakpoint");
    assert_eq!(
        bp_ev["body"]["breakpoint"]["verified"], true,
        "should be verified after ClassPrepare; msgs: {msgs:?}"
    );
    assert_eq!(bp_ev["body"]["reason"], "changed");
    assert_eq!(bp_ev["body"]["breakpoint"]["id"], set_bp["body"]["breakpoints"][0]["id"]);
}

#[test]
fn test_set_breakpoint_line_adjusted_to_nearest_executable() {
    let mut rig = breakable();
    rig.request("initialize", r#"{"adapterID": "dapintar"}"#);
    rig.launch_request(BREAKABLE, "Breakable");
    // Line 2 is blank.
    rig.break_at(BREAKABLE_SOURCE, 2);
    rig.request("configurationDone", "null");
    let msgs = &rig.messages;

    let bp = &event_of(msgs, "breakpoint")["body"]["breakpoint"];
    assert_eq!(bp["verified"], true);
    let adjusted = bp["line"].as_u64().expect("no line in breakpoint event");
    assert!(
        adjusted >= 3,
        "expected blank line 2 adjusted to first executable line (>= 3); got {adjusted}"
    );
    assert_eq!(adjusted, 4);
}

#[test]
fn test_set_breakpoint_no_source_mapping_stays_unverified() {
    let mut rig = simple();
    rig.request("initialize", r#"{"adapterID": "dapintar"}"#);
    rig.launch_request(SIMPLE, "Main");
    rig.break_at("/nonexistent/NeverLoads.java", 5);
    rig.request("configurationDone", "null");
    let msgs = &rig.messages;

    let set_bp = answer_of(msgs, "setBreakpoints");
    assert_eq!(set_bp["body"]["breakpoints"][0]["verified"], false);

    let has_verified = msgs
        .iter()
        .any(|m| m["event"] == "breakpoint" && m["body"]["breakpoint"]["verified"] == true);
    assert!(!has_verified, "unexpected verified breakpoint event; msgs: {msgs:?}");
    assert!(msgs.iter().any(|m| m["event"] == "terminated"), "msgs: {msgs:?}");
}

#[test]
fn test_breakpoint_hit_stopped_event() {
    let (rig, stopped_thread_id) = setup_breakpoint_hit();
    assert!(stopped_thread_id > 0, "thread id should be non-zero");
    let stopped = event_of(&rig.messages, "stopped");
    assert_eq!(stopped["body"]["reason"], "breakpoint");
    assert_eq!(stopped["body"]["allThreadsStopped"], true);
}

#[test]
fn test_threads_after_breakpoint_hit() {
    let (mut rig, stopped_thread_id) = setup_breakpoint_hit();
    let msgs = rig.request("threads", "null");

    let resp = answer_of(&msgs, "threads");
    assert_eq!(resp["success"], true);

    let threads = resp["body"]["threads"].as_array().expect("no threads array");
    assert!(
        threads.iter().any(|t| t["id"].as_u64() == Some(stopped_thread_id)),
        "stopped thread {stopped_thread_id} not found in threads list; threads: {threads:?}"
    );
    assert_eq!(threads[0]["name"], "main");
    // A thread whose name is not given is named by its number.
    assert_eq!(threads[1]["name"], "Thread-0x12");
}

#[test]
fn test_stack_trace_after_breakpoint_hit() {
    let (mut rig, stopped_thread_id) = setup_breakpoint_hit();
    let msgs = rig.request("stackTrace", &format!(r#"{{"threadId": {stopped_thread_id}}}"#));

    let resp = answer_of(&msgs, "stackTrace");
    assert_eq!(resp["success"], true);

    let frames = resp["body"]["stackFrames"].as_array().expect("no stackFrames");
    assert!(!frames.is_empty(), "expected at least one frame");
    let frame_name = frames[0]["name"].as_str().unwrap_or("");
    assert!(
        frame_name.contains("main"),
        "top frame should contain 'main'; got '{frame_name}'"
    );
    assert_eq!(frame_name, "Breakable.main");
    assert_eq!(frames[0]["line"], 8);
    assert_eq!(frames[0]["column"], 0);
    assert_eq!(frames[0]["source"]["path"], BREAKABLE_SOURCE);
    assert_eq!(resp["body"]["totalFrames"], 1);
}

#[test]
fn test_variables_after_breakpoint_hit() {
    let (mut rig, stopped_thread_id) = setup_breakpoint_hit();

    let top = top_frame(&mut rig, stopped_thread_id);
    let top_frame_id = top["id"].as_u64().unwrap();

    let sc = rig.request("scopes", &format!(r#"{{"frameId": {top_frame_id}}}"#));
    let scope = &answer_of(&sc, "scopes")["body"]["scopes"][0];
    assert_eq!(scope["name"], "Locals");
    assert_eq!(scope["expensive"], false);
    let vars_ref = scope["variablesReference"].as_u64().unwrap();
    assert!(vars_ref > 0, "expected non-zero variablesReference");

    let v = rig.request("variables", &format!(r#"{{"variablesReference": {vars_ref}}}"#));
    let variables =
        answer_of(&v, "variables")["body"]["variables"].as_array().expect("no variables array");

    let find = |name: &str| variables.iter().find(|v| v["name"] == name);

    assert_eq!(find("a").expect("variable 'a' missing")["value"], "10");
    assert_eq!(find("b").expect("variable 'b' missing")["value"], "20");
    assert_eq!(find("c").expect("variable 'c' missing")["value"], "30");
    assert_eq!(find("msg").expect("variable 'msg' missing")["value"], "\"hello\"");
    assert_eq!(find("none").unwrap()["value"], "null");
    assert_eq!(find("half").unwrap()["value"], "0.5");
    assert_eq!(find("half").unwrap()["variablesReference"], 0);
    // Not in scope yet.
    assert!(find("late").is_none());
}

// ---------------------------------------------------------------------------
// Running on
// ---------------------------------------------------------------------------

#[test]
fn test_continue_resumes_jvm() {
    let (mut rig, _) = setup_step_hit(8);
    let msgs = rig.request("continue", "null");
    assert!(
        msgs.iter().any(|m| m["event"] == "terminated"),
        "expected terminated after continue; msgs: {msgs:?}"
    );
    assert_eq!(answer_of(&msgs, "continue")["body"]["allThreadsContinued"], true);
}

#[test]
fn test_next_advances_to_next_line() {
    let (mut rig, stopped_thread_id) = setup_step_hit(8);

    let msgs = rig.request("next", &format!(r#"{{"threadId": {stopped_thread_id}}}"#));
    let step_stopped = event_of(&msgs, "stopped");
    assert_eq!(step_stopped["body"]["reason"], "step", "stopped reason should be 'step'");

    let name = top_frame_name(&mut rig, stopped_thread_id);
    assert!(name.contains("main"), "after next, should still be in main; got '{name}'");
    assert_eq!(top_frame(&mut rig, stopped_thread_id)["line"], 9);
    // The step is no longer asked for.
    assert!(!rig.jvm.watches.iter().any(|(_, w)| matches!(w, Watch::Single(..))));
}

#[test]
fn test_step_in_enters_called_method() {
    let (mut rig, stopped_thread_id) = setup_step_hit(10);

    let msgs = rig.request("stepIn", &format!(r#"{{"threadId": {stopped_thread_id}}}"#));
    event_of(&msgs, "stopped");

    let name = top_frame_name(&mut rig, stopped_thread_id);
    assert!(name.contains("add"), "after stepIn, should be inside 'add'; got '{name}'");
}

#[test]
fn test_step_out_returns_to_caller() {
    let (mut rig, stopped_thread_id) = setup_step_hit(4);

    let msgs = rig.request("stepOut", &format!(r#"{{"threadId": {stopped_thread_id}}}"#));
    event_of(&msgs, "stopped");

    let name = top_frame_name(&mut rig, stopped_thread_id);
    assert!(name.contains("main"), "after stepOut, should be back in main; got '{name}'");
}

// ---------------------------------------------------------------------------
// Evaluation
// ---------------------------------------------------------------------------

#[test]
fn test_evaluate_hover_local_variable() {
    let (mut rig, stopped_thread_id) = setup_breakpoint_hit();
    let top_frame_id = top_frame(&mut rig, stopped_thread_id)["id"].as_u64().unwrap();

    let msgs = rig.request(
        "evaluate",
        &format!(r#"{{"expression": "a", "frameId": {top_frame_id}, "context": "hover"}}"#),
    );
    let resp = answer_of(&msgs, "evaluate");
    assert_eq!(resp["success"], true);
    assert_eq!(resp["body"]["result"], "10");
}

#[test]
fn test_evaluate_hover_unknown_name_returns_error() {
    let (mut rig, stopped_thread_id) = setup_breakpoint_hit();
    let top_frame_id = top_frame(&mut rig, stopped_thread_id)["id"].as_u64().unwrap();

    let msgs = rig.request(
        "evaluate",
        &format!(
            r#"{{"expression": "noSuchVariable", "frameId": {top_frame_id}, "context": "hover"}}"#
        ),
    );
    let resp = answer_of(&msgs, "evaluate");
    assert_eq!(resp["success"], false);
}

// ---------------------------------------------------------------------------
// The end
// ---------------------------------------------------------------------------

#[test]
fn test_terminated_cause_clean_exit() {
    let mut rig = simple();
    rig.launch_request(SIMPLE, "Main");
    let msgs = rig.request("configurationDone", "null");

    let term = event_of(&msgs, "terminated");
    assert_eq!(
        term["body"]["terminationCause"], "clean_exit",
        "expected clean_exit; msgs: {msgs:?}"
    );
    assert!(term["body"].get("exitCode").is_none());
}

#[test]
fn test_terminated_cause_uncaught_exception() {
    let root = "/fixtures/exception_java";
    let mut rig = throwing(root, "Exceptional", "java/lang/RuntimeException");
    rig.launch_request(root, "Exceptional");
    let msgs = rig.request("configurationDone", "null");

    let term = event_of(&msgs, "terminated");
    assert_eq!(
        term["body"]["terminationCause"], "uncaught_exception",
        "expected uncaught_exception; msgs: {msgs:?}"
    );
}

#[test]
fn test_terminated_cause_oom() {
    let root = "/fixtures/oom_java";
    let mut rig = throwing(root, "OomClass", "java/lang/OutOfMemoryError");
    rig.launch_request(root, "OomClass");
    let msgs = rig.request("configurationDone", "null");

    let term = event_of(&msgs, "terminated");
    assert_eq!(
        term["body"]["terminationCause"], "out_of_memory",
        "expected out_of_memory; msgs: {msgs:?}"
    );
}

#[test]
fn test_jvm_exception_sends_terminated_with_exit_code_and_stderr() {
    let root = "/fixtures/exception_java";
    let mut rig = throwing(root, "Exceptional", "java/lang/RuntimeException");
    rig.launch_request(root, "Exceptional");
    let line = "Exception in thread \"main\" java.lang.RuntimeException: intentional-exception";
    let m = rig.backend.output(line);
    rig.say(m);
    rig.request("configurationDone", "null");
    let msgs = &rig.messages;

    let exit_code = event_of(msgs, "terminated")["body"]["exitCode"].as_u64().unwrap_or(0);
    assert!(exit_code != 0, "expected non-zero exit code; msgs: {msgs:?}");

    assert!(
        msgs.iter().any(|m| {
            m["event"] == "output"
                && m["body"]["category"] == "stderr"
                && m["body"]["output"]
                    .as_str()
                    .map(|s| s.contains("intentional-exception"))
                    .unwrap_or(false)
        }),
        "expected 'intentional-exception' in stderr output; msgs: {msgs:?}"
    );
}

#[test]
fn test_disconnect_kills_jvm_and_sends_terminated() {
    let mut rig = simple();
    // The JVM stays suspended.
    rig.launch_request(SIMPLE, "Main");
    let msgs = rig.request("disconnect", "null");

    assert!(
        msgs.iter().any(|m| m["event"] == "terminated"),
        "expected terminated after disconnect; msgs: {msgs:?}"
    );
    assert!(!rig.running);
    assert!(rig.backend.session.is_none());
    assert_eq!(msgs.iter().filter(|m| m["event"] == "terminated").count(), 1);
}

// ---------------------------------------------------------------------------
// Several modules, inner classes
// ---------------------------------------------------------------------------

#[test]
fn test_breakpoint_in_subproject_class() {
    let root = "/fixtures/multi_module_java";
    let mut disk = Disk { files: vec![(format!("{root}/settings.gradle"), vec![])] };
    for (module, class) in [("app", "App"), ("lib", "Lib")] {
        disk.files.push((format!("{root}/{module}/src/main/java/{class}.java"), vec![]));
        disk.files.push((
            format!("{root}/{module}/build/classes/java/main/{class}.class"),
            class_bytes(class, &format!("{class}.java")),
        ));
    }
    let app = Class {
        name: "App",
        methods: vec![init(1), Method { name: "main", lines: vec![(0, 3)], vars: vec![] }],
    };
    let lib = Class {
        name: "Lib",
        methods: vec![
            init(1),
            Method { name: "compute", lines: vec![(0, 3), (3, 4)], vars: vec![] },
        ],
    };
    let program = vec![
        Op::Load(0),
        Op::At(0, 1, 0, 0),
        Op::Load(1),
        Op::At(1, 1, 0, 1),
        Op::At(1, 1, 3, 1),
        Op::At(0, 1, 8, 0),
    ];
    let mut rig = Rig::new(disk, Jvm::new(vec![app, lib], program, 0));

    rig.request("initialize", r#"{"adapterID": "dapintar"}"#);
    rig.launch_request(root, "App");
    rig.break_at(&format!("{root}/lib/src/main/java/Lib.java"), 3);
    let msgs = rig.request("configurationDone", "null");

    let stopped = event_of(&msgs, "stopped");
    assert_eq!(stopped["body"]["reason"], "breakpoint");

    let stopped_tid = stopped["body"]["threadId"].as_u64().unwrap();
    let top = top_frame(&mut rig, stopped_tid);
    assert!(
        top["name"].as_str().map(|n| n.contains("Lib")).unwrap_or(false),
        "expected top frame to be in Lib; got {top:?}"
    );
}

#[test]
fn test_breakpoint_in_inner_class_fires_at_correct_line() {
    let root = "/fixtures/inner_class_java";
    let outer = Class {
        name: "OuterClass",
        methods: vec![
            init(1),
            Method { name: "main", lines: vec![(0, 4), (8, 10), (12, 11)], vars: vec![] },
        ],
    };
    let anonymous = Class {
        name: "OuterClass$1",
        methods: vec![init(4), Method { name: "run", lines: vec![(0, 7), (8, 8)], vars: vec![] }],
    };
    let program = vec![
        Op::Load(0),
        Op::At(0, 1, 0, 0),
        Op::Load(1),
        Op::At(0, 1, 8, 0),
        Op::At(1, 1, 0, 1),
        Op::At(1, 1, 8, 1),
        Op::At(0, 1, 12, 0),
    ];
    let mut rig = Rig::new(
        gradle_project(root, "OuterClass.java", &["OuterClass", "OuterClass$1"]),
        Jvm::new(vec![outer, anonymous], program, 0),
    );

    rig.request("initialize", r#"{"adapterID": "dapintar"}"#);
    rig.launch_request(root, "OuterClass");
    rig.break_at(&format!("{root}/src/main/java/OuterClass.java"), 7);
    let msgs = rig.request("configurationDone", "null");

    let stopped = event_of(&msgs, "stopped");
    assert_eq!(stopped["body"]["reason"], "breakpoint");

    let tid = stopped["body"]["threadId"].as_u64().unwrap();
    let top = top_frame(&mut rig, tid);
    let frame_name = top["name"].as_str().unwrap_or("");
    assert!(
        frame_name.contains("run"),
        "expected top frame to be in run() of anonymous class; got '{frame_name}'"
    );
    let frame_line = top["line"].as_u64().unwrap_or(0);
    assert_eq!(frame_line, 7, "expected stopped at line 7; got {frame_line}");
}

// ---------------------------------------------------------------------------
// More of the same
// ---------------------------------------------------------------------------

#[test]
fn messages_are_numbered_one_after_the_other() {
    let (mut rig, thread) = setup_breakpoint_hit();
    rig.request("next", &format!(r#"{{"threadId": {thread}}}"#));
    rig.request("noSuchCommand", "null");
    rig.request("continue", "null");
    for (i, m) in rig.messages.iter().enumerate() {
        assert_eq!(m["seq"].as_u64(), Some(i as u64 + 1), "{m:?}");
    }
}

#[test]
fn messages_that_are_no_requests_are_passed_over() {
    assert!(run_exchange(&[
        r#"{"seq": 1, "type": "event", "command": "launch"}"#,
        r#"{"seq": 1, "command": "threads"}"#,
        r#"{"type": "request", "command": "threads"}"#,
        r#"{"seq": -1, "type": "request", "command": "threads"}"#,
        r#"{"seq": 1.5, "type": "request", "command": "threads"}"#,
        r#"{"seq": 1, "type": "request"}"#,
        r#"[1]"#,
        r#""request""#,
    ])
    .is_empty());
}

#[test]
fn answers_name_the_request() {
    let msgs = run_exchange(&[r#"{"seq": 41, "type": "request", "command": "frobnicate"}"#]);
    assert_eq!(
        msgs[0],
        serde_json::from_str::<Value>(
            r#"{"seq": 1, "type": "response", "requestSeq": 41, "success": false,
                "command": "frobnicate", "message": "unhandled command: frobnicate"}"#
        )
        .unwrap()
    );
}

#[test]
fn nothing_is_there_without_a_session() {
    let msgs = run_exchange(&[
        r#"{"seq": 1, "type": "request", "command": "threads"}"#,
        r#"{"seq": 2, "type": "request", "command": "stackTrace", "arguments": {"threadId": 1}}"#,
        r#"{"seq": 3, "type": "request", "command": "scopes"}"#,
        r#"{"seq": 4, "type": "request", "command": "variables"}"#,
        r#"{"seq": 5, "type": "request", "command": "evaluate", "arguments": {"expression": "a"}}"#,
        r#"{"seq": 6, "type": "request", "command": "evaluate"}"#,
        r#"{"seq": 7, "type": "request", "command": "next"}"#,
        r#"{"seq": 8, "type": "request", "command": "continue"}"#,
        r#"{"seq": 9, "type": "request", "command": "setBreakpoints"}"#,
        r#"{"seq": 10, "type": "request", "command": "setBreakpoints",
            "arguments": {"source": {"path": "/a"}, "breakpoints": [{"line": 3}, {}, {"line": 4}]}}"#,
    ]);
    assert_eq!(msgs.len(), 10);
    assert_eq!(msgs[0]["body"]["threads"].as_array().unwrap().len(), 0);
    assert_eq!(msgs[1]["body"]["totalFrames"], 0);
    assert_eq!(msgs[2]["body"]["scopes"].as_array().unwrap().len(), 0);
    assert_eq!(msgs[3]["body"]["variables"].as_array().unwrap().len(), 0);
    assert_eq!(msgs[4]["message"], "not available");
    assert_eq!(msgs[5]["message"], "missing expression");
    assert_eq!(msgs[6]["message"], "no active debug session");
    assert_eq!(msgs[7]["success"], true);
    assert_eq!(msgs[8]["message"], "setBreakpoints requires 'source.path'");
    let bps = msgs[9]["body"]["breakpoints"].as_array().unwrap();
    assert_eq!(bps.len(), 2);
    assert_eq!(bps[1], serde_json::from_str::<Value>(r#"{"verified": false, "line": 4}"#).unwrap());
}

#[test]
fn project_may_be_given_as_its_directory() {
    let mut rig = simple();
    let msgs = rig.request("launch", &format!(r#"{{"projectDir": "{SIMPLE}", "mainClass": "Main"}}"#));
    assert_eq!(answer_of(&msgs, "launch")["success"], true);
}

#[test]
fn main_class_is_found_where_none_is_asked_for() {
    let mut rig = simple();
    rig.disk.files[1].1 = b"public class Main { public static void main(String[] a) {} }".to_vec();
    let msgs = rig.request("launch", &format!(r#"{{"projectRoot": "{SIMPLE}"}}"#));
    assert_eq!(answer_of(&msgs, "launch")["success"], true);

    let mut rig = simple();
    let msgs = rig.request("launch", &format!(r#"{{"projectRoot": "{SIMPLE}"}}"#));
    let resp = answer_of(&msgs, "launch");
    assert_eq!(resp["success"], false);
    assert_eq!(
        resp["message"],
        "no main class found under \"/fixtures/simple_java\"; provide 'mainClass' in launch configuration"
    );
}

#[test]
fn running_on_forgets_what_was_shown() {
    let (mut rig, thread) = setup_breakpoint_hit();
    // No thread is stopped any more once the program is told to run, whatever it does.
    rig.jvm.suspended = 2;
    let msgs = rig.request("continue", "null");
    assert_eq!(msgs.len(), 1);
    let msgs = rig.request("threads", "null");
    assert_eq!(msgs[0]["body"]["threads"].as_array().unwrap().len(), 0);
    let msgs = rig.request("stepIn", &format!(r#"{{"threadId": {thread}}}"#));
    assert_eq!(msgs[0]["message"], "no stopped thread");
}

#[test]
fn evaluation_without_a_frame_takes_the_top_one() {
    let (mut rig, _) = setup_breakpoint_hit();
    let msgs = rig.request("evaluate", r#"{"expression": "c"}"#);
    assert_eq!(msgs[0]["body"]["result"], "30");
    let msgs = rig.request("evaluate", r#"{"expression": "c", "frameId": 1}"#);
    assert_eq!(msgs[0]["message"], "not available");
}

#[test]
fn breakpoints_of_a_source_file_are_replaced() {
    let (mut rig, _) = setup_breakpoint_hit();
    let set = |rig: &Rig| {
        rig.jvm.watches.iter().filter(|(_, w)| matches!(w, Watch::Break(..))).count()
    };
    assert_eq!(set(&rig), 1);
    // The class is loaded now, so that this is set at once.
    let msgs = rig.break_at(BREAKABLE_SOURCE, 9);
    let bp = &answer_of(&msgs, "setBreakpoints")["body"]["breakpoints"][0];
    assert_eq!(bp["verified"], true);
    assert_eq!(bp["line"], 9);
    assert_eq!(bp["id"], 2);
    assert_eq!(set(&rig), 1);
    // Too far from any line.
    let msgs = rig.break_at(BREAKABLE_SOURCE, 10);
    assert_eq!(
        answer_of(&msgs, "setBreakpoints")["body"]["breakpoints"][0],
        serde_json::from_str::<Value>(r#"{"id": 3, "verified": false, "line": 10}"#).unwrap()
    );
    assert_eq!(set(&rig), 0);
}

#[test]
fn later_class_of_the_same_source_gets_the_breakpoint_too() {
    let root = "/p";
    let both = |name| Class {
        name,
        methods: vec![Method { name: "f", lines: vec![(0, 5)], vars: vec![] }],
    };
    let program =
        vec![Op::Load(0), Op::Load(1), Op::At(0, 0, 0, 0), Op::At(1, 0, 0, 0)];
    let mut rig = Rig::new(
        gradle_project(root, "A.java", &["A", "A$1"]),
        Jvm::new(vec![both("A"), both("A$1")], program, 0),
    );
    rig.launch_request(root, "A");
    rig.break_at("/p/src/main/java/A.java", 4);
    let msgs = rig.request("configurationDone", "null");
    // The editor is told once.
    assert_eq!(msgs.iter().filter(|m| m["event"] == "breakpoint").count(), 1);
    event_of(&msgs, "stopped");
    let msgs = rig.request("continue", "null");
    let stopped = event_of(&msgs, "stopped");
    let tid = stopped["body"]["threadId"].as_u64().unwrap();
    assert_eq!(top_frame(&mut rig, tid)["name"], "A$1.f");
    // Both are taken away again.
    rig.request("setBreakpoints", r#"{"source": {"path": "/p/src/main/java/A.java"}}"#);
    assert!(!rig.jvm.watches.iter().any(|(_, w)| matches!(w, Watch::Break(..))));
}

#[test]
fn failed_build_is_told() {
    let mut backend = Backend::new();
    let errors = vec!["A.java:1: error: x".to_string(), "A.java:2: error: y".to_string()];
    let (a, b) = backend.build_failed(&errors, 5);
    let a = to_value(&a);
    assert_eq!(a["message"], "build failed:\nA.java:1: error: x\nA.java:2: error: y");
    assert_eq!(a["requestSeq"], 5);
    assert_eq!(to_value(&b)["event"], "terminated");
    assert!(to_value(&b).get("body").is_none());
}

#[test]
fn step_that_the_jvm_refuses_is_told() {
    let (mut rig, thread) = setup_breakpoint_hit();
    rig.jvm.ended = true;
    let msgs = rig.request("next", &format!(r#"{{"threadId": {thread}}}"#));
    let resp = answer_of(&msgs, "next");
    assert_eq!(resp["success"], false);
    assert_eq!(
        resp["message"],
        "step request failed: JDWP error code 112 (cmdSet=15 cmd=1)"
    );
}

#[test]
fn first_exception_decides() {
    let root = "/fixtures/exception_java";
    let mut rig = throwing(root, "Exceptional", "java/lang/OutOfMemoryError");
    rig.jvm.classes.push(Class { name: "java/lang/RuntimeException", methods: vec![] });
    rig.jvm.program.push(Op::Throw(2));
    rig.launch_request(root, "Exceptional");
    let msgs = rig.request("configurationDone", "null");
    let term = event_of(&msgs, "terminated");
    assert_eq!(term["body"]["terminationCause"], "out_of_memory");
    assert_eq!(term["body"]["exitCode"], 1);
}

#[test]
fn negative_exit_code_is_told_as_it_is() {
    let mut backend = Backend::new();
    let m = to_value(&backend.terminated(Some(-9)));
    assert_eq!(m["body"]["exitCode"], -9);
}
