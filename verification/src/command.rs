//! Commands: the requests a client can make, how they travel as frames,
//! and what they do to the table.

use crate::error::{CommandError, KvsError};
use crate::frame::{tag_name, tag_slice, views, Frame, FrameView};
use crate::store::DbControl;
use vstd::prelude::*;
use vstd::utf8::{decode_utf8, encode_utf8, valid_utf8};

verus! {

/// The kind of a command.
#[derive(Debug, Clone, Copy, PartialEq, Eq)]
pub enum CommandType {
    /// `SET key value`: install a value under a key.
    Put,
    /// `GET key`: look a key up.
    Get,
    /// `DEL key`: remove a key.
    Del,
    /// `PING`: ask whether the server is there.
    Ping,
}

/// A request. A command is valid where it holds just the fields that its
/// kind needs ([`CommandView::valid`]); the constructors build valid
/// commands only, and so does decoding.
#[derive(Debug, PartialEq, Eq)]
pub struct Command {
    pub cmd: CommandType,
    pub key: Option<String>,
    pub value: Option<String>,
}

/// A command as mathematics: its texts are sequences of characters.
pub struct CommandView {
    pub cmd: CommandType,
    pub key: Option<Seq<char>>,
    pub value: Option<Seq<char>>,
}

/// The characters of a text that may be absent.
pub open spec fn text(s: Option<String>) -> Option<Seq<char>> {
    match s {
        Some(s) => Some(s@),
        None => None,
    }
}

impl View for Command {
    type V = CommandView;

    open spec fn view(&self) -> CommandView {
        CommandView { cmd: self.cmd, key: text(self.key), value: text(self.value) }
    }
}

/// The value frame that carries a text.
pub open spec fn arg(s: Seq<char>) -> FrameView {
    FrameView::Arg(encode_utf8(s))
}

/// The text of a frame in a key or value position: the frame must be a
/// value frame, and its payload UTF-8.
pub open spec fn value_text(f: FrameView) -> Result<Seq<char>, KvsError> {
    match f {
        FrameView::Arg(p) => if valid_utf8(p) {
            Ok(decode_utf8(p))
        } else {
            Err(KvsError::Command(CommandError::Text))
        },
        _ => Err(KvsError::Command(CommandError::Kind)),
    }
}

/// The command that an array frame with these elements stands for. The
/// first element decides: it must be the tag `set`, `get` or `del`. Then
/// the count must fit the tag, and then each argument must be a text, the
/// key before the value.
pub open spec fn array_command(items: Seq<FrameView>) -> Result<CommandView, KvsError> {
    if items.len() == 0 {
        Err(KvsError::Command(CommandError::Arity))
    } else if items[0] == FrameView::Cmd(tag_name(CommandType::Put)) {
        if items.len() != 3 {
            Err(KvsError::Command(CommandError::Arity))
        } else {
            match value_text(items[1]) {
                Err(e) => Err(e),
                Ok(k) => match value_text(items[2]) {
                    Err(e) => Err(e),
                    Ok(v) => Ok(CommandView::put(k, v)),
                },
            }
        }
    } else if items[0] == FrameView::Cmd(tag_name(CommandType::Get)) {
        if items.len() != 2 {
            Err(KvsError::Command(CommandError::Arity))
        } else {
            match value_text(items[1]) {
                Err(e) => Err(e),
                Ok(k) => Ok(CommandView::get(k)),
            }
        }
    } else if items[0] == FrameView::Cmd(tag_name(CommandType::Del)) {
        if items.len() != 2 {
            Err(KvsError::Command(CommandError::Arity))
        } else {
            match value_text(items[1]) {
                Err(e) => Err(e),
                Ok(k) => Ok(CommandView::del(k)),
            }
        }
    } else {
        Err(KvsError::Command(CommandError::UnknownTag))
    }
}

impl FrameView {
    /// The command that a frame stands for: an array of a tag `set`, `get`
    /// or `del` and the value frames that tag asks for, or the bare tag
    /// `ping`. Every other frame is refused, with the reason.
    pub open spec fn command(self) -> Result<CommandView, KvsError> {
        match self {
            FrameView::Array(items) => array_command(items),
            FrameView::Cmd(name) => if name == tag_name(CommandType::Ping) {
                Ok(CommandView::ping())
            } else {
                Err(KvsError::Command(CommandError::UnknownTag))
            },
            _ => Err(KvsError::Command(CommandError::Shape)),
        }
    }
}

impl CommandView {
    /// `SET k v`.
    pub open spec fn put(k: Seq<char>, v: Seq<char>) -> CommandView {
        CommandView { cmd: CommandType::Put, key: Some(k), value: Some(v) }
    }

    /// `GET k`.
    pub open spec fn get(k: Seq<char>) -> CommandView {
        CommandView { cmd: CommandType::Get, key: Some(k), value: None }
    }

    /// `DEL k`.
    pub open spec fn del(k: Seq<char>) -> CommandView {
        CommandView { cmd: CommandType::Del, key: Some(k), value: None }
    }

    /// `PING`.
    pub open spec fn ping() -> CommandView {
        CommandView { cmd: CommandType::Ping, key: None, value: None }
    }

    /// Whether the command holds just what its kind needs: `Put` a key
    /// and a value, `Get` and `Del` a key only, `Ping` neither.
    pub open spec fn valid(self) -> bool {
        match self.cmd {
            CommandType::Put => self.key is Some && self.value is Some,
            CommandType::Get => self.key is Some && self.value is None,
            CommandType::Del => self.key is Some && self.value is None,
            CommandType::Ping => self.key is None && self.value is None,
        }
    }

    /// The frame that the command travels as, or the field that is
    /// missing. `Ping` is the bare tag; the others are an array of the tag
    /// and one value frame for each field that the kind needs.
    pub open spec fn frame(self) -> Result<FrameView, KvsError> {
        match self.cmd {
            CommandType::Ping => Ok(FrameView::Cmd(tag_name(CommandType::Ping))),
            CommandType::Put => match self.key {
                None => Err(KvsError::Command(CommandError::MissingKey)),
                Some(k) => match self.value {
                    None => Err(KvsError::Command(CommandError::MissingValue)),
                    Some(v) => Ok(
                        FrameView::Array(
                            seq![FrameView::Cmd(tag_name(CommandType::Put)), arg(k), arg(v)],
                        ),
                    ),
                },
            },
            kind => match self.key {
                None => Err(KvsError::Command(CommandError::MissingKey)),
                Some(k) => Ok(FrameView::Array(seq![FrameView::Cmd(tag_name(kind)), arg(k)])),
            },
        }
    }

    /// What the command answers on a table, and the table it leaves; or
    /// the field that is missing, in which case the table stays as it is.
    pub open spec fn applied(self, table: Map<Seq<char>, Seq<char>>) -> Result<
        (Option<Seq<char>>, Map<Seq<char>, Seq<char>>),
        KvsError,
    > {
        match self.cmd {
            CommandType::Ping => Ok((Some("PONG"@), table)),
            CommandType::Put => match self.key {
                None => Err(KvsError::Command(CommandError::MissingKey)),
                Some(k) => match self.value {
                    None => Err(KvsError::Command(CommandError::MissingValue)),
                    Some(v) => Ok((lookup(table, k), table.insert(k, v))),
                },
            },
            CommandType::Get => match self.key {
                None => Err(KvsError::Command(CommandError::MissingKey)),
                Some(k) => Ok((lookup(table, k), table)),
            },
            CommandType::Del => match self.key {
                None => Err(KvsError::Command(CommandError::MissingKey)),
                Some(k) => Ok((lookup(table, k), table.remove(k))),
            },
        }
    }
}

/// The value under a key, if the table has one.
pub open spec fn lookup(table: Map<Seq<char>, Seq<char>>, k: Seq<char>) -> Option<Seq<char>> {
    if table.contains_key(k) {
        Some(table[k])
    } else {
        None
    }
}

impl Command {
    /// `SET k v`.
    pub fn new_set(k: String, v: String) -> (c: Command)
        ensures
            c@ == CommandView::put(k@, v@),
    {
        Command { cmd: CommandType::Put, key: Some(k), value: Some(v) }
    }

    /// `GET k`.
    pub fn new_get(k: String) -> (c: Command)
        ensures
            c@ == CommandView::get(k@),
    {
        Command { cmd: CommandType::Get, key: Some(k), value: None }
    }

    /// `DEL k`.
    pub fn new_del(k: String) -> (c: Command)
        ensures
            c@ == CommandView::del(k@),
    {
        Command { cmd: CommandType::Del, key: Some(k), value: None }
    }

    /// `PING`.
    pub fn new_ping() -> (c: Command)
        ensures
            c@ == CommandView::ping(),
    {
        Command { cmd: CommandType::Ping, key: None, value: None }
    }

    /// Runs the command on the table and returns its answer: for `Put` the
    /// value that was under the key before, for `Get` the value that is,
    /// for `Del` the value that was removed, each `None` where there is no
    /// such value; for `Ping` the text `PONG`.
    pub fn apply(self, db: &mut DbControl) -> (r: Result<Option<String>, KvsError>)
        ensures
            match self@.applied(old(db)@) {
                Ok((answer, table)) => r matches Ok(a) && text(a) == answer && final(db)@ == table,
                Err(e) => r matches Err(x) && x == e && final(db)@ == old(db)@,
            },
    {
        match self.cmd {
            CommandType::Put => match self.key {
                None => Err(KvsError::Command(CommandError::MissingKey)),
                Some(key) => match self.value {
                    None => Err(KvsError::Command(CommandError::MissingValue)),
                    Some(value) => Ok(db.set(key, value)),
                },
            },
            CommandType::Get => match self.key {
                None => Err(KvsError::Command(CommandError::MissingKey)),
                Some(key) => Ok(db.get(&key)),
            },
            CommandType::Del => match self.key {
                None => Err(KvsError::Command(CommandError::MissingKey)),
                Some(key) => Ok(db.del(&key)),
            },
            CommandType::Ping => Ok(Some("PONG".to_owned())),
        }
    }

    /// The frame that the command travels as.
    pub fn into_frame(self) -> (r: Result<Frame, KvsError>)
        ensures
            match self@.frame() {
                Ok(frame) => r matches Ok(f) && f@ == frame,
                Err(e) => r matches Err(x) && x == e,
            },
    {
        let mut frame = Frame::new(&self.cmd);
        match self.cmd {
            CommandType::Put => {
                match self.key {
                    None => {
                        return Err(KvsError::Command(CommandError::MissingKey));
                    },
                    Some(key) => frame.push_arg(key),
                }
                match self.value {
                    None => {
                        return Err(KvsError::Command(CommandError::MissingValue));
                    },
                    Some(value) => frame.push_arg(value),
                }
            },
            CommandType::Get => match self.key {
                None => {
                    return Err(KvsError::Command(CommandError::MissingKey));
                },
                Some(key) => frame.push_arg(key),
            },
            CommandType::Del => match self.key {
                None => {
                    return Err(KvsError::Command(CommandError::MissingKey));
                },
                Some(key) => frame.push_arg(key),
            },
            CommandType::Ping => {},
        }
        proof {
            match frame@ {
                FrameView::Array(items) => {
                    match self@.frame() {
                        Ok(FrameView::Array(wanted)) => {
                            assert(items =~= wanted);
                        },
                        _ => {},
                    }
                },
                _ => {},
            }
        }
        Ok(frame)
    }

    /// The command that a frame stands for; decoding builds valid commands
    /// only, and refuses every frame that is not exactly a command.
    pub fn from_frame(frame: &Frame) -> (r: Result<Command, KvsError>)
        ensures
            match frame@.command() {
                Ok(c) => r matches Ok(x) && x@ == c,
                Err(e) => r matches Err(x) && x == e,
            },
    {
        match frame {
            Frame::Array(arr) => parse_cmd(arr),
            Frame::Cmd(_) => {
                if is_tag(frame, CommandType::Ping) {
                    Ok(Command::new_ping())
                } else {
                    Err(KvsError::Command(CommandError::UnknownTag))
                }
            },
            _ => Err(KvsError::Command(CommandError::Shape)),
        }
    }
}

/// Whether two runs of bytes are the same.
fn same_bytes(a: &[u8], b: &[u8]) -> (r: bool)
    ensures
        r == (a@ == b@),
{
    if a.len() != b.len() {
        return false;
    }
    let mut i: usize = 0;
    while i < a.len()
        invariant
            a@.len() == b@.len(),
            i <= a@.len(),
            a@.take(i as int) == b@.take(i as int),
        decreases a@.len() - i,
    {
        if a[i] != b[i] {
            return false;
        }
        i = i + 1;
    }
    proof {
        assert(a@.take(a@.len() as int) =~= a@);
        assert(b@.take(b@.len() as int) =~= b@);
    }
    true
}

/// Whether a frame is the tag of the given kind of command.
fn is_tag(frame: &Frame, cmd: CommandType) -> (r: bool)
    ensures
        r == (frame@ == FrameView::Cmd(tag_name(cmd))),
{
    match frame {
        Frame::Cmd(name) => same_bytes(name, tag_slice(&cmd)),
        _ => false,
    }
}

/// The command that an array frame with the elements `arr` stands for.
fn parse_cmd(arr: &Vec<Frame>) -> (r: Result<Command, KvsError>)
    ensures
        match array_command(views(arr@)) {
            Ok(c) => r matches Ok(x) && x@ == c,
            Err(e) => r matches Err(x) && x == e,
        },
{
    let tag = parse_arr_index(arr, 0)?;
    if is_tag(tag, CommandType::Put) {
        if arr.len() != 3 {
            return Err(KvsError::Command(CommandError::Arity));
        }
        let k = parse_value(parse_arr_index(arr, 1)?)?;
        let v = parse_value(parse_arr_index(arr, 2)?)?;
        Ok(Command::new_set(k, v))
    } else if is_tag(tag, CommandType::Get) {
        if arr.len() != 2 {
            return Err(KvsError::Command(CommandError::Arity));
        }
        let k = parse_value(parse_arr_index(arr, 1)?)?;
        Ok(Command::new_get(k))
    } else if is_tag(tag, CommandType::Del) {
        if arr.len() != 2 {
            return Err(KvsError::Command(CommandError::Arity));
        }
        let k = parse_value(parse_arr_index(arr, 1)?)?;
        Ok(Command::new_del(k))
    } else {
        Err(KvsError::Command(CommandError::UnknownTag))
    }
}

/// The text in a key or value position.
fn parse_value(frame: &Frame) -> (r: Result<String, KvsError>)
    ensures
        match value_text(frame@) {
            Ok(t) => r matches Ok(s) && s@ == t,
            Err(e) => r matches Err(x) && x == e,
        },
{
    match frame {
        Frame::Arg(val) => match core::str::from_utf8(val) {
            Ok(s) => {
                proof {
                    vstd::utf8::encode_utf8_decode_utf8(s@);
                }
                Ok(s.to_owned())
            },
            Err(_) => Err(KvsError::Command(CommandError::Text)),
        },
        _ => Err(KvsError::Command(CommandError::Kind)),
    }
}

/// The element at `index`, or the complaint that the array is too short.
fn parse_arr_index(arr: &Vec<Frame>, index: usize) -> (r: Result<&Frame, KvsError>)
    ensures
        index < arr@.len() ==> r == Ok::<&Frame, KvsError>(&arr@[index as int]),
        index >= arr@.len() ==> r == Err::<&Frame, KvsError>(KvsError::Command(CommandError::Arity)),
{
    if index < arr.len() {
        Ok(&arr[index])
    } else {
        Err(KvsError::Command(CommandError::Arity))
    }
}

/// A valid command comes back unchanged from the frame it travels as:
/// decoding what encoding gives is the command again. This holds for
/// `Ping` too, which travels as a bare tag and not as an array.
pub proof fn lemma_command_round_trip(c: CommandView)
    requires
        c.valid(),
    ensures
        c.frame() matches Ok(f) && f.command() == Ok::<CommandView, KvsError>(c),
{
    broadcast use vstd::utf8::encode_utf8_valid_utf8, vstd::utf8::encode_utf8_decode_utf8;
}

/// Decoding builds valid commands only: whatever frame stands for a
/// command stands for one that holds just the fields of its kind.
pub proof fn lemma_decoded_is_valid(f: FrameView)
    ensures
        f.command() matches Ok(c) ==> c.valid(),
{
}

/// `Del` on a key that the table does not hold answers that there is no
/// value, is no error, and leaves the table as it is.
pub proof fn lemma_del_absent(table: Map<Seq<char>, Seq<char>>, k: Seq<char>)
    requires
        !table.contains_key(k),
    ensures
        CommandView::del(k).applied(table) == Ok::<
            (Option<Seq<char>>, Map<Seq<char>, Seq<char>>),
            KvsError,
        >((None, table)),
{
    assert(table.remove(k) =~= table);
}

/// `Del` may be repeated: behind a first `Del` of a key, on any table, a
/// second one answers that there is no value and changes nothing.
pub proof fn lemma_del_twice(table: Map<Seq<char>, Seq<char>>, k: Seq<char>)
    ensures
        CommandView::del(k).applied(table) matches Ok((_, once)) && CommandView::del(k).applied(
            once,
        ) == Ok::<(Option<Seq<char>>, Map<Seq<char>, Seq<char>>), KvsError>((None, once)),
{
    lemma_del_absent(table.remove(k), k);
}

/// Of two `Put` on one key, run one after the other in either order, the
/// later decides: a `Get` behind them answers its value whole. So the
/// answer is one of the two values, never a mixture and never a third.
pub proof fn lemma_last_put_decides(
    table: Map<Seq<char>, Seq<char>>,
    k: Seq<char>,
    v1: Seq<char>,
    v2: Seq<char>,
)
    ensures
        CommandView::put(k, v1).applied(table) matches Ok((_, first)) && CommandView::put(
            k,
            v2,
        ).applied(first) matches Ok((_, both)) && CommandView::get(k).applied(both) == Ok::<
            (Option<Seq<char>>, Map<Seq<char>, Seq<char>>),
            KvsError,
        >((Some(v2), both)),
        CommandView::put(k, v2).applied(table) matches Ok((_, first)) && CommandView::put(
            k,
            v1,
        ).applied(first) matches Ok((_, both)) && CommandView::get(k).applied(both) == Ok::<
            (Option<Seq<char>>, Map<Seq<char>, Seq<char>>),
            KvsError,
        >((Some(v1), both)),
{
}

} // verus!
