//! The wire protocol of the JVM.

use dapintar::jdwp::client::{
    handshake, Command, IdSizes, JdwpClient, PacketHeader, Received, HEADER_LEN,
};
use dapintar::jdwp::event::{parse_composite_event, JdwpEvent};
use dapintar::jdwp::read::{
    read_id, read_string, read_u16, read_u32, read_u64, read_u8, write_id, JdwpError, Width,
};
use dapintar::jdwp::value::{JvmValue, Real};
use dapintar::jdwp::{
    read_location, LineTableEntry, Location, EVENT_BREAKPOINT, STEP_DEPTH_INTO, STEP_DEPTH_OUT,
    STEP_DEPTH_OVER,
};

fn shown(v: JvmValue) -> String {
    v.display().unwrap()
}

const PLACE: Location = Location { type_tag: 1, class_id: 2, method_id: 3, index: 4 };

const PLACE_BYTES: [u8; 25] =
    [1, 0, 0, 0, 0, 0, 0, 0, 2, 0, 0, 0, 0, 0, 0, 0, 3, 0, 0, 0, 0, 0, 0, 0, 4];

#[test]
fn numbers_are_read_from_the_highest_byte_on() {
    let d = [1, 2, 3, 4, 5, 6, 7, 8, 9, 10, 11, 12, 13, 14, 15];
    let mut pos = 0;
    assert_eq!(read_u8(&d, &mut pos), Ok(1));
    assert_eq!(read_u16(&d, &mut pos), Ok(0x0203));
    assert_eq!(read_u32(&d, &mut pos), Ok(0x04050607));
    assert_eq!(read_u64(&d, &mut pos), Ok(0x08090a0b0c0d0e0f));
    assert_eq!(pos, 15);
    assert_eq!(read_u8(&d, &mut pos), Err(JdwpError::Underrun { width: Width::U8, at: 15 }));
    let mut pos = 12;
    assert_eq!(read_u32(&d, &mut pos), Err(JdwpError::Underrun { width: Width::U32, at: 12 }));
    assert_eq!(read_id(&d, &mut pos), Err(JdwpError::Underrun { width: Width::U64, at: 12 }));
    assert_eq!(pos, 12);
    assert_eq!(read_u16(&d, &mut pos), Ok(0x0d0e));
    assert_eq!(read_u16(&d, &mut pos), Err(JdwpError::Underrun { width: Width::U16, at: 14 }));
}

#[test]
fn numbers_are_written_as_they_are_read() {
    let mut b = vec![7];
    write_id(&mut b, 0x0102030405060708);
    assert_eq!(b, [7, 1, 2, 3, 4, 5, 6, 7, 8]);
    let mut pos = 1;
    assert_eq!(read_id(&b, &mut pos), Ok(0x0102030405060708));
}

#[test]
fn strings_have_their_length_before_them() {
    let mut pos = 0;
    assert_eq!(read_string(&[0, 0, 0, 3, 0x61, 0xc3, 0xa9, 9], &mut pos), Ok("a\u{e9}".to_string()));
    assert_eq!(pos, 7);
    let mut pos = 0;
    assert_eq!(
        read_string(&[0, 0, 0, 3, 0x61, 0x62], &mut pos),
        Err(JdwpError::StringUnderrun { len: 3 })
    );
    let mut pos = 0;
    let bad = [0x61, 0xff];
    assert_eq!(
        read_string(&[0, 0, 0, 2, 0x61, 0xff], &mut pos),
        Err(JdwpError::NotUtf8(std::str::from_utf8(&bad).unwrap_err()))
    );
    // A surrogate is no character.
    let mut pos = 0;
    let e = read_string(&[0, 0, 0, 3, 0xed, 0xa0, 0x80], &mut pos).unwrap_err();
    assert_eq!(
        e.message(),
        "JDWP string not UTF-8: invalid utf-8 sequence of 1 bytes from index 0"
    );
}

#[test]
fn errors_say_what_is_wrong() {
    assert_eq!(
        JdwpError::Underrun { width: Width::U16, at: 14 }.message(),
        "JDWP buffer underrun reading u16 at 14"
    );
    assert_eq!(
        JdwpError::StringUnderrun { len: 3 }.message(),
        "JDWP buffer underrun reading string of len 3"
    );
    assert_eq!(
        JdwpError::Refused { code: 101, set: 6, cmd: 5 }.message(),
        "JDWP error code 101 (cmdSet=6 cmd=5)"
    );
    assert_eq!(JdwpError::WriteClosed.message(), "JDWP write channel closed");
    assert_eq!(JdwpError::ReplyDropped.message(), "JDWP reply channel dropped (JVM exited?)");
}

#[test]
fn values_are_shown() {
    assert_eq!(shown(JvmValue::Byte(255)), "255");
    assert_eq!(shown(JvmValue::Char(0x41)), "'A'");
    assert_eq!(shown(JvmValue::Char(0xd800)), "'\\ud800'");
    assert_eq!(shown(JvmValue::Char(0xe9)), "'\u{e9}'");
    assert_eq!(shown(JvmValue::Int(0xffff_ffff)), "-1");
    assert_eq!(shown(JvmValue::Int(0x7fff_ffff)), "2147483647");
    assert_eq!(shown(JvmValue::Int(0x8000_0000)), "-2147483648");
    assert_eq!(shown(JvmValue::Long(0x8000_0000_0000_0000)), "-9223372036854775808");
    assert_eq!(shown(JvmValue::Short(0xfffe)), "-2");
    assert_eq!(shown(JvmValue::Boolean(true)), "true");
    assert_eq!(shown(JvmValue::Boolean(false)), "false");
    assert_eq!(shown(JvmValue::Object { tag: 0x4c, id: 0x1f }), "@0x1f");
    assert_eq!(shown(JvmValue::Object { tag: 0x4c, id: 0 }), "@0x0");
    assert_eq!(shown(JvmValue::Void), "void");
    // Real numbers are left to the caller.
    assert_eq!(JvmValue::Double(1).display(), Err(Real::Double(1)));
    assert_eq!(JvmValue::Float(2).display(), Err(Real::Float(2)));
}

#[test]
fn values_are_read_by_their_tags() {
    let d = [
        0, 0, 0, 10, 0x42, 9, 0x43, 0, 65, 0x44, 0, 0, 0, 0, 0, 0, 0, 1, 0x46, 0, 0, 0, 2, 0x49, 0,
        0, 0, 3, 0x4a, 0, 0, 0, 0, 0, 0, 0, 4, 0x53, 0, 5, 0x5a, 2, 0x56, 0x73, 0, 0, 0, 0, 0, 0,
        0, 6,
    ];
    let v = JdwpClient::stack_frame_get_values_reply(&d).unwrap();
    assert_eq!(
        v,
        [
            JvmValue::Byte(9),
            JvmValue::Char(65),
            JvmValue::Double(1),
            JvmValue::Float(2),
            JvmValue::Int(3),
            JvmValue::Long(4),
            JvmValue::Short(5),
            JvmValue::Boolean(true),
            JvmValue::Void,
            JvmValue::Object { tag: 0x73, id: 6 },
        ]
    );
    assert_eq!(
        JdwpClient::stack_frame_get_values_reply(&[0, 0, 0, 1, 0x49, 0]),
        Err(JdwpError::Underrun { width: Width::U32, at: 5 })
    );
}

#[test]
fn commands_are_laid_out() {
    assert_eq!(JdwpClient::vm_version(), Command { set: 1, cmd: 1, data: vec![] });
    assert_eq!(JdwpClient::vm_all_classes(), Command { set: 1, cmd: 20, data: vec![] });
    assert_eq!(
        JdwpClient::thread_resume(5),
        Command { set: 11, cmd: 3, data: vec![0, 0, 0, 0, 0, 0, 0, 5] }
    );
    assert_eq!(
        JdwpClient::method_line_table(1, 2),
        Command { set: 6, cmd: 1, data: vec![0, 0, 0, 0, 0, 0, 0, 1, 0, 0, 0, 0, 0, 0, 0, 2] }
    );
    assert_eq!(
        JdwpClient::thread_frames(1, 0, u32::MAX).data,
        [0, 0, 0, 0, 0, 0, 0, 1, 0, 0, 0, 0, 255, 255, 255, 255]
    );
    assert_eq!(
        JdwpClient::stack_frame_get_values(1, 2, &[(3, 0x49), (4, 0x4c)]).data,
        [
            0, 0, 0, 0, 0, 0, 0, 1, 0, 0, 0, 0, 0, 0, 0, 2, 0, 0, 0, 2, 0, 0, 0, 3, 0x49, 0, 0, 0,
            4, 0x4c
        ]
    );
    assert_eq!(JdwpClient::event_request_set_class_prepare().data, [8, 2, 0, 0, 0, 0]);
    let mut want = vec![2, 2, 0, 0, 0, 1, 7];
    want.extend_from_slice(&PLACE_BYTES);
    assert_eq!(
        JdwpClient::event_request_set_breakpoint(&PLACE),
        Command { set: 15, cmd: 1, data: want }
    );
    assert_eq!(
        JdwpClient::event_request_set_step(9, STEP_DEPTH_OVER).data,
        [1, 2, 0, 0, 0, 1, 10, 0, 0, 0, 0, 0, 0, 0, 9, 0, 0, 0, 1, 0, 0, 0, 1]
    );
    assert_eq!((STEP_DEPTH_INTO, STEP_DEPTH_OUT), (0, 2));
    assert_eq!(
        JdwpClient::event_request_clear(EVENT_BREAKPOINT, 0x0102),
        Command { set: 15, cmd: 2, data: vec![2, 0, 0, 1, 2] }
    );
    assert_eq!(
        JdwpClient::event_request_set_exception_uncaught().data,
        [4, 2, 0, 0, 0, 1, 8, 0, 0, 0, 0, 0, 0, 0, 0, 0, 1]
    );
}

#[test]
fn replies_are_read() {
    assert_eq!(
        JdwpClient::vm_version_reply(&[0, 0, 0, 2, 0x31, 0x37]),
        Ok("17".to_string())
    );
    let sizes = JdwpClient::vm_id_sizes_reply(&[
        0, 0, 0, 8, 0, 0, 0, 8, 0, 0, 0, 8, 0, 0, 0, 8, 0, 0, 0, 4,
    ])
    .unwrap();
    assert_eq!(sizes, IdSizes { field: 8, method: 8, object: 8, ref_type: 8, frame: 4 });
    assert!(!sizes.are_supported());
    assert!(IdSizes { frame: 8, ..sizes }.are_supported());

    let table = JdwpClient::method_line_table_reply(&[
        0, 0, 0, 0, 0, 0, 0, 0, 0, 0, 0, 0, 0, 0, 0, 9, 0, 0, 0, 1, 0, 0, 0, 0, 0, 0, 0, 4, 0, 0, 0,
        7,
    ])
    .unwrap();
    assert_eq!((table.start, table.end), (0, 9));
    assert_eq!(table.lines, [LineTableEntry { line_code_index: 4, line_number: 7 }]);

    assert_eq!(
        JdwpClient::object_reference_type_reply(&[1, 0, 0, 0, 0, 0, 0, 0, 5]),
        Ok((1, 5))
    );
    assert_eq!(JdwpClient::event_request_reply(&[0, 0, 1, 0]), Ok(256));
    let threads = JdwpClient::vm_all_threads_reply(&[0, 0, 0, 1, 0, 0, 0, 0, 0, 0, 0, 3]).unwrap();
    assert_eq!((threads.len(), threads[0].id), (1, 3));
    assert!(JdwpClient::vm_all_threads_reply(&[0, 0, 0, 2, 0, 0, 0, 0, 0, 0, 0, 3]).is_err());

    let mut d = vec![0, 0, 0, 1, 0, 0, 0, 0, 0, 0, 0, 8];
    d.extend_from_slice(&PLACE_BYTES);
    let frames = JdwpClient::thread_frames_reply(&d).unwrap();
    assert_eq!((frames[0].frame_id, frames[0].location), (8, PLACE));
}

#[test]
fn location_reads_back() {
    let data = JdwpClient::event_request_set_breakpoint(&PLACE).data;
    let mut pos = 7;
    assert_eq!(read_location(&data, &mut pos), Ok(PLACE));
    assert_eq!(pos, 32);
}

#[test]
fn handshake_must_be_returned() {
    assert_eq!(handshake(), b"JDWP-Handshake");
    assert!(JdwpClient::connect(b"JDWP-Handshake").is_some());
    assert!(JdwpClient::connect(b"JDWP-handshake").is_none());
    assert!(JdwpClient::connect(b"JDWP-Handshak").is_none());
}

#[test]
fn packets_carry_commands_and_replies() {
    let mut client = JdwpClient::connect(&handshake()).unwrap();
    let first = client.send_command(&Command { set: 6, cmd: 5, data: vec![9, 8] });
    assert_eq!(first, [0, 0, 0, 13, 0, 0, 0, 1, 0, 6, 5, 9, 8]);
    let second = client.send_command(&JdwpClient::vm_resume());
    assert_eq!(second, [0, 0, 0, 11, 0, 0, 0, 2, 0, 1, 9]);

    // What was sent reads back.
    let h = PacketHeader::read(&first);
    assert_eq!((h.length, h.id, h.flags, h.first, h.second), (13, 1, 0, 6, 5));
    assert_eq!(h.payload_len(), first.len() - HEADER_LEN);

    let reply = |id: u8, code: u8| PacketHeader::read(&[0, 0, 0, 12, 0, 0, 0, id, 0x80, 0, code]);
    assert_eq!(
        client.received(reply(2, 0), vec![7]),
        Received::Reply { id: 2, result: Ok(vec![7]) }
    );
    // Nobody waits for it any more.
    assert_eq!(client.received(reply(2, 0), vec![7]), Received::Ignored);
    assert_eq!(
        client.received(reply(1, 101), vec![]),
        Received::Reply { id: 1, result: Err(JdwpError::Refused { code: 101, set: 6, cmd: 5 }) }
    );

    let third = client.send_command(&JdwpClient::vm_resume());
    assert_eq!(third[7], 3);
    assert_eq!(client.closed(), JdwpEvent::VmDeath);
    assert_eq!(client.received(reply(3, 0), vec![]), Received::Ignored);
}

#[test]
fn other_packets_are_events_or_nothing() {
    let mut client = JdwpClient::connect(&handshake()).unwrap();
    let events = PacketHeader::read(&[0, 0, 0, 20, 0, 0, 0, 1, 0, 64, 100]);
    assert_eq!(
        client.received(events, vec![0, 0, 0, 0, 1, 99, 0, 0, 0, 0]),
        Received::Events(vec![JdwpEvent::VmDeath])
    );
    assert_eq!(
        client.received(events, vec![]),
        Received::Unreadable(JdwpError::Underrun { width: Width::U8, at: 0 })
    );
    let other = PacketHeader::read(&[0, 0, 0, 5, 0, 0, 0, 1, 0, 64, 99]);
    assert_eq!(client.received(other, vec![]), Received::Ignored);
    // A length that is too small to be true.
    assert_eq!(other.payload_len(), 0);
}

#[test]
fn composite_events_are_read_one_by_one() {
    let mut d = vec![2, 0, 0, 0, 4];
    // The start of the JVM is of no interest.
    d.extend_from_slice(&[90, 0, 0, 0, 0, 0, 0, 0, 0, 0, 0, 0, 1]);
    d.extend_from_slice(&[1, 0, 0, 0, 6, 0, 0, 0, 0, 0, 0, 0, 1]);
    d.extend_from_slice(&PLACE_BYTES);
    d.extend_from_slice(&[2, 0, 0, 0, 7, 0, 0, 0, 0, 0, 0, 0, 1]);
    d.extend_from_slice(&PLACE_BYTES);
    // A kind that is not known ends it.
    d.extend_from_slice(&[77, 0, 0, 0, 8]);
    let events = parse_composite_event(&d).unwrap();
    assert_eq!(events.len(), 2);
    match &events[0] {
        JdwpEvent::Step(e) => assert_eq!((e.request_id, e.thread_id, e.location), (6, 1, PLACE)),
        _ => panic!("no step"),
    }
    match &events[1] {
        JdwpEvent::Breakpoint(e) => assert_eq!((e.request_id, e.location), (7, PLACE)),
        _ => panic!("no breakpoint"),
    }
    // An event that is cut off makes all unreadable.
    assert!(parse_composite_event(&d[..40]).is_err());
}

#[test]
fn bytes_behind_a_composite_do_not_matter() {
    let mut d = vec![2, 0, 0, 0, 1];
    d.extend_from_slice(&[99, 0, 0, 0, 0]);
    assert_eq!(parse_composite_event(&d).unwrap().len(), 1);
    d.extend_from_slice(&[1, 2, 3]);
    let events = parse_composite_event(&d).unwrap();
    assert!(matches!(events[..], [JdwpEvent::VmDeath]));
}
