use bytes::Bytes;
use kvs::command::{Command, CommandType};
use kvs::connection::{read_frame, write_frame};
use kvs::error::{CommandError, KvsError};
use kvs::frame::Frame;
use kvs::store::DbControl;

fn tag(s: &'static str) -> Frame {
    Frame::Cmd(Bytes::from(s))
}

fn val(s: &'static str) -> Frame {
    Frame::Arg(Bytes::from(s))
}

fn text(s: &str) -> String {
    s.to_string()
}

fn refused(frame: Frame) -> CommandError {
    match Command::from_frame(&frame) {
        Err(KvsError::Command(why)) => why,
        other => panic!("expected a refusal, got {:?}", other),
    }
}

#[test]
fn constructors_fill_the_fields_of_their_kind() {
    let c = Command::new_set(text("k"), text("v"));
    assert_eq!(c.cmd, CommandType::Put);
    assert_eq!(c.key, Some(text("k")));
    assert_eq!(c.value, Some(text("v")));
    let c = Command::new_get(text("k"));
    assert_eq!(c.cmd, CommandType::Get);
    assert_eq!(c.key, Some(text("k")));
    assert_eq!(c.value, None);
    let c = Command::new_del(text("k"));
    assert_eq!(c.cmd, CommandType::Del);
    assert_eq!(c.key, Some(text("k")));
    assert_eq!(c.value, None);
    let c = Command::new_ping();
    assert_eq!(c.cmd, CommandType::Ping);
    assert_eq!(c.key, None);
    assert_eq!(c.value, None);
}

#[test]
fn set_travels_as_tag_key_value() {
    assert_eq!(
        Command::new_set(text("foo"), text("bar")).into_frame(),
        Ok(Frame::Array(vec![tag("set"), val("foo"), val("bar")]))
    );
}

#[test]
fn get_travels_as_tag_key() {
    assert_eq!(
        Command::new_get(text("foo")).into_frame(),
        Ok(Frame::Array(vec![tag("get"), val("foo")]))
    );
}

#[test]
fn del_travels_as_tag_key() {
    assert_eq!(
        Command::new_del(text("foo")).into_frame(),
        Ok(Frame::Array(vec![tag("del"), val("foo")]))
    );
}

#[test]
fn ping_travels_as_a_bare_tag() {
    assert_eq!(Command::new_ping().into_frame(), Ok(tag("ping")));
}

#[test]
fn frame_new_starts_the_frame_of_each_kind() {
    assert_eq!(Frame::new(&CommandType::Ping), tag("ping"));
    assert_eq!(Frame::new(&CommandType::Put), Frame::Array(vec![tag("set")]));
    assert_eq!(Frame::new(&CommandType::Get), Frame::Array(vec![tag("get")]));
    assert_eq!(Frame::new(&CommandType::Del), Frame::Array(vec![tag("del")]));
}

#[test]
fn push_arg_appends_to_arrays_only() {
    let mut frame = Frame::new(&CommandType::Get);
    frame.push_arg(text("k\u{e9}"));
    assert_eq!(
        frame,
        Frame::Array(vec![tag("get"), Frame::Arg(Bytes::from("k\u{e9}"))])
    );
    let mut frame = Frame::new(&CommandType::Ping);
    frame.push_arg(text("k"));
    assert_eq!(frame, tag("ping"));
    let mut frame = Frame::Null;
    frame.push_arg(text("k"));
    assert_eq!(frame, Frame::Null);
}

#[test]
fn new_arg_holds_the_text_in_a_value_frame() {
    assert_eq!(Frame::new_arg(text("bar")), val("bar"));
    assert_eq!(Frame::new_arg(String::new()), val(""));
    assert_eq!(
        Frame::new_arg(text("h\u{e9}")),
        Frame::Arg(Bytes::from(vec![0x68, 0xc3, 0xa9]))
    );
}

#[test]
fn new_err_holds_the_text_in_an_error_frame() {
    assert_eq!(
        Frame::new_err(text("boom")),
        Frame::Error(Bytes::from("boom"))
    );
    assert_eq!(Frame::new_err(String::new()), Frame::Error(Bytes::from("")));
    assert_ne!(Frame::new_err(text("boom")), val("boom"));
    let mut wire = Vec::new();
    write_frame(&mut wire, &Frame::new_err(text("boom")));
    assert_eq!(wire, b"?4\r\nboom\r\n".to_vec());
}

#[test]
fn encoding_without_a_key_is_an_error() {
    for cmd in [CommandType::Put, CommandType::Get, CommandType::Del] {
        let c = Command {
            cmd,
            key: None,
            value: Some(text("v")),
        };
        assert_eq!(
            c.into_frame(),
            Err(KvsError::Command(CommandError::MissingKey))
        );
    }
}

#[test]
fn encoding_set_without_a_value_is_an_error() {
    let c = Command {
        cmd: CommandType::Put,
        key: Some(text("k")),
        value: None,
    };
    assert_eq!(
        c.into_frame(),
        Err(KvsError::Command(CommandError::MissingValue))
    );
}

#[test]
fn ping_encodes_whatever_fields_it_holds() {
    let c = Command {
        cmd: CommandType::Ping,
        key: Some(text("k")),
        value: None,
    };
    assert_eq!(c.into_frame(), Ok(tag("ping")));
}

#[test]
fn decodes_each_command() {
    assert_eq!(
        Command::from_frame(&Frame::Array(vec![tag("set"), val("foo"), val("bar")])),
        Ok(Command::new_set(text("foo"), text("bar")))
    );
    assert_eq!(
        Command::from_frame(&Frame::Array(vec![tag("get"), val("foo")])),
        Ok(Command::new_get(text("foo")))
    );
    assert_eq!(
        Command::from_frame(&Frame::Array(vec![tag("del"), val("foo")])),
        Ok(Command::new_del(text("foo")))
    );
    assert_eq!(Command::from_frame(&tag("ping")), Ok(Command::new_ping()));
}

#[test]
fn every_valid_command_comes_back_from_its_frame() {
    let keys = ["", "foo", "with space", "\r\n", "h\u{e9}llo \u{4e16}\u{1f600}", "\0"];
    for k in keys {
        for v in keys {
            let frame = Command::new_set(text(k), text(v)).into_frame().unwrap();
            assert_eq!(
                Command::from_frame(&frame),
                Ok(Command::new_set(text(k), text(v)))
            );
        }
        let frame = Command::new_get(text(k)).into_frame().unwrap();
        assert_eq!(Command::from_frame(&frame), Ok(Command::new_get(text(k))));
        let frame = Command::new_del(text(k)).into_frame().unwrap();
        assert_eq!(Command::from_frame(&frame), Ok(Command::new_del(text(k))));
    }
    let frame = Command::new_ping().into_frame().unwrap();
    assert_eq!(frame, tag("ping"));
    assert_eq!(Command::from_frame(&frame), Ok(Command::new_ping()));
}

#[test]
fn commands_come_back_over_the_wire() {
    let commands = [
        Command::new_set(text("foo"), text("bar baz")),
        Command::new_get(text("foo")),
        Command::new_del(text("h\u{e9}")),
        Command::new_ping(),
    ];
    for c in commands {
        let expected = Command {
            cmd: c.cmd,
            key: c.key.clone(),
            value: c.value.clone(),
        };
        let mut wire = Vec::new();
        write_frame(&mut wire, &c.into_frame().unwrap());
        let frame = read_frame(&wire).unwrap();
        assert_eq!(Command::from_frame(&frame), Ok(expected));
    }
}

#[test]
fn frames_that_are_no_array_and_no_tag_are_refused() {
    assert_eq!(refused(Frame::Null), CommandError::Shape);
    assert_eq!(refused(val("ping")), CommandError::Shape);
    assert_eq!(refused(Frame::Error(Bytes::from("ping"))), CommandError::Shape);
}

#[test]
fn unknown_tags_are_refused() {
    assert_eq!(refused(tag("pong")), CommandError::UnknownTag);
    assert_eq!(refused(tag("PING")), CommandError::UnknownTag);
    assert_eq!(refused(tag("")), CommandError::UnknownTag);
    assert_eq!(refused(tag("set")), CommandError::UnknownTag);
    assert_eq!(
        refused(Frame::Array(vec![tag("put"), val("k"), val("v")])),
        CommandError::UnknownTag
    );
    assert_eq!(
        refused(Frame::Array(vec![tag("SET"), val("k"), val("v")])),
        CommandError::UnknownTag
    );
    assert_eq!(
        refused(Frame::Array(vec![tag("ping")])),
        CommandError::UnknownTag
    );
    assert_eq!(
        refused(Frame::Array(vec![val("get"), val("k")])),
        CommandError::UnknownTag
    );
    assert_eq!(
        refused(Frame::Array(vec![
            Frame::Cmd(Bytes::from(vec![0xff, 0xfe])),
            val("k")
        ])),
        CommandError::UnknownTag
    );
    assert_eq!(
        refused(Frame::Array(vec![Frame::Array(vec![tag("get")]), val("k")])),
        CommandError::UnknownTag
    );
}

#[test]
fn wrong_arity_is_refused() {
    assert_eq!(refused(Frame::Array(vec![])), CommandError::Arity);
    assert_eq!(refused(Frame::Array(vec![tag("set")])), CommandError::Arity);
    assert_eq!(
        refused(Frame::Array(vec![tag("set"), val("k")])),
        CommandError::Arity
    );
    assert_eq!(
        refused(Frame::Array(vec![tag("set"), val("k"), val("v"), val("w")])),
        CommandError::Arity
    );
    assert_eq!(refused(Frame::Array(vec![tag("get")])), CommandError::Arity);
    assert_eq!(
        refused(Frame::Array(vec![tag("get"), val("k"), val("v")])),
        CommandError::Arity
    );
    assert_eq!(refused(Frame::Array(vec![tag("del")])), CommandError::Arity);
    assert_eq!(
        refused(Frame::Array(vec![tag("del"), val("k"), val("v")])),
        CommandError::Arity
    );
}

#[test]
fn a_wrong_kind_of_frame_in_a_position_is_refused() {
    assert_eq!(
        refused(Frame::Array(vec![tag("get"), tag("k")])),
        CommandError::Kind
    );
    assert_eq!(
        refused(Frame::Array(vec![tag("del"), Frame::Null])),
        CommandError::Kind
    );
    assert_eq!(
        refused(Frame::Array(vec![tag("set"), val("k"), Frame::Error(Bytes::from("v"))])),
        CommandError::Kind
    );
    assert_eq!(
        refused(Frame::Array(vec![tag("set"), Frame::Array(vec![]), val("v")])),
        CommandError::Kind
    );
}

#[test]
fn keys_and_values_must_be_utf8() {
    let bad = || Frame::Arg(Bytes::from(vec![b'a', 0xff, b'b']));
    assert_eq!(
        refused(Frame::Array(vec![tag("get"), bad()])),
        CommandError::Text
    );
    assert_eq!(
        refused(Frame::Array(vec![tag("set"), val("k"), bad()])),
        CommandError::Text
    );
    assert_eq!(
        refused(Frame::Array(vec![tag("set"), bad(), val("v")])),
        CommandError::Text
    );
    // a surrogate and an overlong form are not UTF-8 either
    assert_eq!(
        refused(Frame::Array(vec![
            tag("get"),
            Frame::Arg(Bytes::from(vec![0xed, 0xa0, 0x80]))
        ])),
        CommandError::Text
    );
    assert_eq!(
        refused(Frame::Array(vec![
            tag("get"),
            Frame::Arg(Bytes::from(vec![0xc0, 0xaf]))
        ])),
        CommandError::Text
    );
}

#[test]
fn decoded_text_is_the_utf8_reading_of_the_payload() {
    let frame = Frame::Array(vec![
        tag("get"),
        Frame::Arg(Bytes::from(vec![0x68, 0xc3, 0xa9, 0xe4, 0xb8, 0x96])),
    ]);
    assert_eq!(
        Command::from_frame(&frame),
        Ok(Command::new_get(text("h\u{e9}\u{4e16}")))
    );
}

#[test]
fn apply_set_returns_the_previous_value() {
    let mut db = DbControl::new(None);
    assert_eq!(
        Command::new_set(text("k"), text("1")).apply(&mut db),
        Ok(None)
    );
    assert_eq!(
        Command::new_set(text("k"), text("2")).apply(&mut db),
        Ok(Some(text("1")))
    );
    assert_eq!(db.get(&text("k")), Some(text("2")));
}

#[test]
fn apply_get_leaves_the_table_alone() {
    let mut db = DbControl::new(None);
    db.set(text("k"), text("v"));
    assert_eq!(Command::new_get(text("k")).apply(&mut db), Ok(Some(text("v"))));
    assert_eq!(Command::new_get(text("k")).apply(&mut db), Ok(Some(text("v"))));
    assert_eq!(Command::new_get(text("other")).apply(&mut db), Ok(None));
    assert_eq!(db.get(&text("other")), None);
}

#[test]
fn apply_del_returns_the_removed_value() {
    let mut db = DbControl::new(None);
    db.set(text("k"), text("v"));
    db.set(text("j"), text("w"));
    assert_eq!(Command::new_del(text("k")).apply(&mut db), Ok(Some(text("v"))));
    assert_eq!(db.get(&text("k")), None);
    assert_eq!(db.get(&text("j")), Some(text("w")));
}

#[test]
fn apply_ping_answers_pong() {
    let mut db = DbControl::new(None);
    assert_eq!(Command::new_ping().apply(&mut db), Ok(Some(text("PONG"))));
}

#[test]
fn apply_without_a_needed_field_is_an_error_and_changes_nothing() {
    let mut db = DbControl::new(None);
    db.set(text("k"), text("v"));
    let c = Command {
        cmd: CommandType::Put,
        key: None,
        value: Some(text("x")),
    };
    assert_eq!(
        c.apply(&mut db),
        Err(KvsError::Command(CommandError::MissingKey))
    );
    let c = Command {
        cmd: CommandType::Put,
        key: Some(text("k")),
        value: None,
    };
    assert_eq!(
        c.apply(&mut db),
        Err(KvsError::Command(CommandError::MissingValue))
    );
    let c = Command {
        cmd: CommandType::Del,
        key: None,
        value: None,
    };
    assert_eq!(
        c.apply(&mut db),
        Err(KvsError::Command(CommandError::MissingKey))
    );
    let c = Command {
        cmd: CommandType::Get,
        key: None,
        value: None,
    };
    assert_eq!(
        c.apply(&mut db),
        Err(KvsError::Command(CommandError::MissingKey))
    );
    assert_eq!(db.get(&text("k")), Some(text("v")));
}

#[test]
fn set_get_del_ping_in_order() {
    let mut db = DbControl::new(None);
    let r = Command::new_set(text("foo"), text("bar")).apply(&mut db);
    assert_eq!(r, Ok(None));
    let r = Command::new_get(text("foo")).apply(&mut db);
    assert_eq!(r, Ok(Some(text("bar"))));
    let r = Command::new_set(text("foo"), text("baz")).apply(&mut db);
    assert_eq!(r, Ok(Some(text("bar"))));
    let r = Command::new_del(text("foo")).apply(&mut db);
    assert_eq!(r, Ok(Some(text("baz"))));
    let r = Command::new_get(text("foo")).apply(&mut db);
    assert_eq!(r, Ok(None));
    let r = Command::new_ping().apply(&mut db);
    assert_eq!(r, Ok(Some(text("PONG"))));
}
