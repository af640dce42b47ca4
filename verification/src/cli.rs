//! The command line.

use vstd::prelude::*;
use vstd::slice::slice_subrange;

use crate::text::{enclosed, joined, quoted, same_bytes, utf8_text};

verus! {

pub const DEFAULT_SESSION: &'static str = "boop";

pub const DEFAULT_DETACH_KEY: u8 = 0x1c;

pub const USAGE: &'static str = "\
Usage: boop [--session NAME] [--detach-key KEY] [COMMAND [ARG...]]
       boop --name NAME [--detach-key KEY]
       boop --disconnect [NAME]
       boop --list
       boop --status

  -s, --session NAME       attach to or create session NAME
  -n, --name NAME          attach to existing session NAME
  -d, --disconnect [NAME]  detach all clients of session NAME, or of the current session
  -l, --list               list sessions
      --status             print the name of the current session
  -k, --detach-key KEY     detach key, written ^X (default ^\\)
  -h, --help               show this help
  -V, --version            show the version
";

/// The most characters that the name of a session has.
pub const MAX_NAME: usize = 64;

/// Whether `c` may stand in the name of a session.
pub open spec fn name_char(c: char) -> bool {
    ||| 'a' <= c <= 'z'
    ||| 'A' <= c <= 'Z'
    ||| '0' <= c <= '9'
    ||| c == '.' || c == '_' || c == '-' || c == '+' || c == '@' || c == ':'
}

/// Whether `name` is the name of a session.
pub open spec fn valid_name(name: Seq<char>) -> bool {
    &&& 0 < name.len() <= MAX_NAME
    &&& name[0] != '.'
    &&& forall|i: int| 0 <= i < name.len() ==> name_char(#[trigger] name[i])
}

/// Why a name that is shown like this is refused.
pub open spec fn refused_name(shown: Seq<char>) -> Seq<char> {
    "invalid session name "@ + shown
        + ": use up to 64 of A-Z a-z 0-9 . _ - + @ : not starting with ."@
}

/// Why `name` is refused.
pub open spec fn invalid_name(name: Seq<char>) -> Seq<char> {
    refused_name(crate::text::debug_text(name))
}

/// The capital of an ASCII letter, and any other character itself.
pub open spec fn capital(c: char) -> char {
    if 'a' <= c <= 'z' {
        (c as int - 32) as char
    } else {
        c
    }
}

/// The key that `text` names: `^?` is delete, and `^` with a character from `@` to `_`
/// is the control character 64 below it.
pub open spec fn key_of(text: Seq<char>) -> Option<u8> {
    if text.len() != 2 || text[0] != '^' {
        None
    } else if text[1] == '?' {
        Some(0x7f)
    } else if '@' <= capital(text[1]) <= '_' {
        Some((capital(text[1]) as int - '@' as int) as u8)
    } else {
        None
    }
}

/// Why a key that is shown like this is refused.
pub open spec fn refused_key(shown: Seq<char>) -> Seq<char> {
    "invalid key "@ + shown + ": expected ^ and a character from @A-Z[\\]^_?"@
}

/// Why `text` is refused.
pub open spec fn invalid_key(text: Seq<char>) -> Seq<char> {
    refused_key(crate::text::debug_text(text))
}

/// How a key is written.
pub open spec fn name_of_key(key: u8) -> Seq<char> {
    seq!['^', if key == 0x7f { '?' } else { (64 + key % 32) as char }]
}

fn is_name_byte(b: u8) -> (ok: bool)
    ensures
        ok == name_char(b as char),
{
    let c: char = b as char;
    match c {
        'a'..='z' | 'A'..='Z' | '0'..='9' | '.' | '_' | '-' | '+' | '@' | ':' => true,
        _ => false,
    }
}

/// Whether `name` is the name of a session.
fn is_session_name(name: &str) -> (ok: bool)
    ensures
        ok == valid_name(name@),
{
    let bytes = name.as_bytes();
    if !name.is_ascii() {
        return false;
    }
    if bytes.len() == 0 || bytes.len() > MAX_NAME || bytes[0] == '.' as u8 {
        return false;
    }
    let mut i: usize = 0;
    while i < bytes.len()
        invariant
            i <= bytes.len(),
            bytes@ == Seq::new(name@.len(), |i: int| name@[i] as u8),
            name.is_ascii(),
            forall|j: int| 0 <= j < i ==> name_char(#[trigger] name@[j]),
        decreases bytes.len() - i,
    {
        assert(name@[i as int] as u8 as char == name@[i as int]);
        if !is_name_byte(bytes[i]) {
            return false;
        }
        i += 1;
    }
    true
}

/// Why a name that is shown like this is refused.
pub fn name_refusal(shown: &str) -> (reason: String)
    ensures
        reason@ == refused_name(shown@),
{
    enclosed(
        "invalid session name ",
        shown,
        ": use up to 64 of A-Z a-z 0-9 . _ - + @ : not starting with .",
    )
}

/// Why a key that is shown like this is refused.
pub fn key_refusal(shown: &str) -> (reason: String)
    ensures
        reason@ == refused_key(shown@),
{
    enclosed("invalid key ", shown, ": expected ^ and a character from @A-Z[\\]^_?")
}

/// Takes `name` for the name of a session, or says why it is none.
pub fn session_name(name: String) -> (result: Result<String, String>)
    ensures
        match result {
            Ok(accepted) => valid_name(name@) && accepted@ == name@,
            Err(reason) => !valid_name(name@) && reason@ == invalid_name(name@),
        },
{
    if is_session_name(name.as_str()) {
        Ok(name)
    } else {
        Err(name_refusal(quoted(name.as_str()).as_str()))
    }
}

fn upper(b: u8) -> (up: u8)
    ensures
        b < 0x80 ==> up == capital(b as char) as u8,
{
    if 97 <= b && b <= 122 {
        b - 32
    } else {
        b
    }
}

/// Reads a key, written `^X`.
pub fn parse_key(text: &str) -> (result: Result<u8, String>)
    ensures
        match result {
            Ok(key) => key_of(text@) == Some(key),
            Err(reason) => key_of(text@) is None && reason@ == invalid_key(text@),
        },
{
    if text.is_ascii() {
        let bytes = text.as_bytes();
        if bytes.len() == 2 && bytes[0] == '^' as u8 {
            let c: u8 = upper(bytes[1]);
            if c == '?' as u8 {
                return Ok(0x7f);
            }
            if '@' as u8 <= c && c <= '_' as u8 {
                return Ok(c - '@' as u8);
            }
        }
    }
    Err(key_refusal(quoted(text).as_str()))
}

/// How a key is written.
pub fn key_name(key: u8) -> (name: String)
    ensures
        name@ == name_of_key(key),
{
    let mut name = String::new();
    name.push('^');
    if key == 0x7f {
        name.push('?');
    } else {
        let letter: u8 = key & 0x1f | 0x40;
        assert((key & 0x1f | 0x40) == 64 + key % 32) by (bit_vector);
        name.push(letter as char);
    }
    name
}

#[derive(Debug, PartialEq, Eq)]
pub enum Action {
    /// Attach to the only session, or start the default one.
    Auto,
    Open { session: String, command: Vec<Vec<u8>> },
    Attach { session: String },
    Disconnect { session: String },
    /// Detach every terminal from the session that this runs in.
    DisconnectCurrent,
    List,
    /// Print the name of the session that this runs in.
    Status,
    Help,
    Version,
}

#[derive(Debug, PartialEq, Eq)]
pub struct Options {
    pub action: Action,
    pub detach_key: u8,
}

/// What an [`Action`] asks for.
#[verifier::ext_equal]
pub enum Request {
    Auto,
    Open { session: Seq<char>, command: Seq<Seq<u8>> },
    Attach { session: Seq<char> },
    Disconnect { session: Seq<char> },
    DisconnectCurrent,
    List,
    Status,
    Help,
    Version,
}

/// What [`Options`] ask for.
#[verifier::ext_equal]
pub struct Requested {
    pub action: Request,
    pub detach_key: u8,
}

/// The bytes of each argument.
pub open spec fn arg_views(args: Seq<Vec<u8>>) -> Seq<Seq<u8>> {
    Seq::new(args.len(), |i: int| args[i]@)
}

impl View for Action {
    type V = Request;

    open spec fn view(&self) -> Request {
        match *self {
            Action::Auto => Request::Auto,
            Action::Open { session, command } => Request::Open {
                session: session@,
                command: arg_views(command@),
            },
            Action::Attach { session } => Request::Attach { session: session@ },
            Action::Disconnect { session } => Request::Disconnect { session: session@ },
            Action::DisconnectCurrent => Request::DisconnectCurrent,
            Action::List => Request::List,
            Action::Status => Request::Status,
            Action::Help => Request::Help,
            Action::Version => Request::Version,
        }
    }
}

impl View for Options {
    type V = Requested;

    open spec fn view(&self) -> Requested {
        Requested { action: self.action@, detach_key: self.detach_key }
    }
}

/// The options given so far. `disconnect` holds a name only where one was given.
#[verifier::ext_equal]
pub struct Given {
    pub session: Option<Seq<char>>,
    pub name: Option<Seq<char>>,
    pub disconnect: Option<Option<Seq<char>>>,
    pub list: bool,
    pub status: bool,
    pub detach_key: Option<u8>,
}

impl Given {
    pub open spec fn nothing() -> Given {
        Given {
            session: None,
            name: None,
            disconnect: None,
            list: false,
            status: false,
            detach_key: None,
        }
    }
}

/// What the options of a command line come to.
#[verifier::ext_equal]
pub enum Scan {
    /// Options, and where the command behind them begins.
    Command(Given, int),
    /// A request that needs nothing else.
    Show(Request),
    /// Why the command line is refused.
    Fail(Seq<char>),
}

/// Where the first `=` of an argument stands, or its length.
pub open spec fn first_equals(arg: Seq<u8>) -> nat
    decreases arg.len(),
{
    if arg.len() == 0 || arg[0] == '=' as u8 {
        0
    } else {
        1 + first_equals(arg.drop_first())
    }
}

/// An option and the value written behind it with a `=`, which only a long option has.
pub open spec fn split_option(arg: Seq<u8>) -> (Seq<u8>, Option<Seq<u8>>) {
    let at = first_equals(arg) as int;
    if 2 <= at < arg.len() && arg[0] == '-' as u8 && arg[1] == '-' as u8 {
        (arg.take(at), Some(arg.skip(at + 1)))
    } else {
        (arg, None)
    }
}

/// The bytes of a text.
pub open spec fn bytes_of(text: Seq<char>) -> Seq<u8> {
    vstd::utf8::encode_utf8(text)
}

/// The text of bytes that are UTF-8.
pub open spec fn text_of(bytes: Seq<u8>) -> Seq<char> {
    vstd::utf8::decode_utf8(bytes)
}

/// The value of the option at `at`, and where the arguments go on behind it.
pub open spec fn option_value(
    args: Seq<Seq<u8>>,
    at: int,
    flag: Seq<u8>,
    inline: Option<Seq<u8>>,
) -> Result<(Seq<char>, int), Seq<char>> {
    match inline {
        Some(value) => Ok((text_of(value), at + 1)),
        None => if at + 1 < args.len() && vstd::utf8::valid_utf8(args[at + 1]) {
            Ok((text_of(args[at + 1]), at + 2))
        } else {
            Err(text_of(flag) + " needs a value"@)
        },
    }
}

/// The value of the option at `at` where it must be the name of a session.
pub open spec fn option_name(
    args: Seq<Seq<u8>>,
    at: int,
    flag: Seq<u8>,
    inline: Option<Seq<u8>>,
) -> Result<(Seq<char>, int), Seq<char>> {
    match option_value(args, at, flag, inline) {
        Ok((name, next)) => if valid_name(name) {
            Ok((name, next))
        } else {
            Err(invalid_name(name))
        },
        Err(reason) => Err(reason),
    }
}

/// What one option does: the options given with it and where the arguments go on.
pub open spec fn scan_option(args: Seq<Seq<u8>>, at: int, given: Given) -> Scan {
    let (flag, inline) = split_option(args[at]);
    if flag == bytes_of("-s"@) || flag == bytes_of("--session"@) {
        match option_name(args, at, flag, inline) {
            Ok((name, next)) => Scan::Command(Given { session: Some(name), ..given }, next),
            Err(reason) => Scan::Fail(reason),
        }
    } else if flag == bytes_of("-n"@) || flag == bytes_of("--name"@) {
        match option_name(args, at, flag, inline) {
            Ok((name, next)) => Scan::Command(Given { name: Some(name), ..given }, next),
            Err(reason) => Scan::Fail(reason),
        }
    } else if flag == bytes_of("-d"@) || flag == bytes_of("--disconnect"@) {
        if inline is None && at + 1 == args.len() {
            Scan::Command(Given { disconnect: Some(None), ..given }, at + 1)
        } else {
            match option_name(args, at, flag, inline) {
                Ok((name, next)) => Scan::Command(
                    Given { disconnect: Some(Some(name)), ..given },
                    next,
                ),
                Err(reason) => Scan::Fail(reason),
            }
        }
    } else if flag == bytes_of("-k"@) || flag == bytes_of("--detach-key"@) {
        match option_value(args, at, flag, inline) {
            Ok((text, next)) => match key_of(text) {
                Some(key) => Scan::Command(Given { detach_key: Some(key), ..given }, next),
                None => Scan::Fail(invalid_key(text)),
            },
            Err(reason) => Scan::Fail(reason),
        }
    } else if flag == bytes_of("-l"@) || flag == bytes_of("--list"@) {
        if inline is Some {
            Scan::Fail(text_of(flag) + " takes no value"@)
        } else {
            Scan::Command(Given { list: true, ..given }, at + 1)
        }
    } else if flag == bytes_of("--status"@) {
        if inline is Some {
            Scan::Fail(text_of(flag) + " takes no value"@)
        } else {
            Scan::Command(Given { status: true, ..given }, at + 1)
        }
    } else if flag == bytes_of("-h"@) || flag == bytes_of("--help"@) {
        Scan::Show(Request::Help)
    } else if flag == bytes_of("-V"@) || flag == bytes_of("--version"@) {
        Scan::Show(Request::Version)
    } else {
        Scan::Fail("unknown option "@ + text_of(args[at]))
    }
}

/// Whether an argument is an option: UTF-8 that starts with `-` and goes on.
pub open spec fn is_option(arg: Seq<u8>) -> bool {
    &&& vstd::utf8::valid_utf8(arg)
    &&& arg.len() > 1
    &&& arg[0] == '-' as u8
}

/// What the arguments from `at` on come to, behind the options already given.
pub open spec fn scan_args(args: Seq<Seq<u8>>, at: int, given: Given) -> Scan
    decreases args.len() - at,
{
    if at < 0 || at >= args.len() || !is_option(args[at]) {
        Scan::Command(given, at)
    } else if args[at] == bytes_of("--"@) {
        Scan::Command(given, at + 1)
    } else {
        match scan_option(args, at, given) {
            Scan::Command(more, next) => scan_args(args, next, more),
            end => end,
        }
    }
}

/// How many of `--session`, `--name`, `--disconnect` and `--list` are given.
pub open spec fn chosen(given: Given) -> int {
    (if given.session is Some { 1int } else { 0 }) + (if given.name is Some { 1int } else { 0 })
        + (if given.disconnect is Some { 1int } else { 0 }) + (if given.list { 1int } else { 0 })
}

/// The key that detaches: the one given, else that of the environment, else the default.
pub open spec fn detach_key_of(given: Option<u8>, env: Option<Seq<char>>) -> Result<
    u8,
    Seq<char>,
> {
    match (given, env) {
        (Some(key), _) => Ok(key),
        (None, Some(text)) => match key_of(text) {
            Some(key) => Ok(key),
            None => Err("BOOP_DETACH_KEY: "@ + invalid_key(text)),
        },
        (None, None) => Ok(DEFAULT_DETACH_KEY),
    }
}

/// What options and a command ask for together.
pub open spec fn settle(given: Given, command: Seq<Seq<u8>>, env: Option<Seq<char>>) -> Result<
    Requested,
    Seq<char>,
> {
    match detach_key_of(given.detach_key, env) {
        Err(reason) => Err(reason),
        Ok(detach_key) => if chosen(given) > 1 {
            Err("--session, --name, --disconnect and --list are exclusive"@)
        } else if given.status && chosen(given) > 0 {
            Err("--status excludes --session, --name, --disconnect and --list"@)
        } else if command.len() > 0 && (given.name is Some || given.disconnect is Some
            || given.list || given.status) {
            Err("a command is only accepted with --session or alone"@)
        } else {
            let action = if given.name is Some {
                Request::Attach { session: given.name->0 }
            } else if given.disconnect is Some {
                match given.disconnect->0 {
                    Some(session) => Request::Disconnect { session },
                    None => Request::DisconnectCurrent,
                }
            } else if given.list {
                Request::List
            } else if given.status {
                Request::Status
            } else if given.session is Some {
                Request::Open { session: given.session->0, command }
            } else if command.len() == 0 {
                Request::Auto
            } else {
                Request::Open { session: DEFAULT_SESSION@, command }
            };
            Ok(Requested { action, detach_key })
        },
    }
}

/// What a command line asks for.
pub open spec fn parsed(args: Seq<Seq<u8>>, env: Option<Seq<char>>) -> Result<
    Requested,
    Seq<char>,
> {
    match scan_args(args, 0, Given::nothing()) {
        Scan::Command(given, at) => settle(given, args.skip(at), env),
        Scan::Show(action) => Ok(Requested { action, detach_key: DEFAULT_DETACH_KEY }),
        Scan::Fail(reason) => Err(reason),
    }
}

pub open spec fn options_view(result: Result<Options, String>) -> Result<Requested, Seq<char>> {
    match result {
        Ok(options) => Ok(options@),
        Err(reason) => Err(reason@),
    }
}

/// The options read so far.
struct Flags {
    session: Option<String>,
    name: Option<String>,
    disconnect: Option<Option<String>>,
    list: bool,
    status: bool,
    detach_key: Option<u8>,
}

impl View for Flags {
    type V = Given;

    closed spec fn view(&self) -> Given {
        Given {
            session: option_text(self.session),
            name: option_text(self.name),
            disconnect: match self.disconnect {
                Some(name) => Some(option_text(name)),
                None => None,
            },
            list: self.list,
            status: self.status,
            detach_key: self.detach_key,
        }
    }
}

/// The text that there may be.
pub open spec fn option_text(text: Option<String>) -> Option<Seq<char>> {
    match text {
        Some(text) => Some(text@),
        None => None,
    }
}

/// The step of a scan that one option makes.
enum Read {
    Next(usize),
    Show(Action),
}

/// Where the first `=` stands is where one stands with none before it.
pub proof fn first_equals_found(arg: Seq<u8>, at: int)
    requires
        0 <= at <= arg.len(),
        forall|j: int| 0 <= j < at ==> arg[j] != '=' as u8,
        at < arg.len() ==> arg[at] == '=' as u8,
    ensures
        first_equals(arg) == at,
    decreases arg.len(),
{
    if at > 0 {
        let later = arg.drop_first();
        assert forall|j: int| 0 <= j < at - 1 implies later[j] != '=' as u8 by {
            assert(later[j] == arg[j + 1]);
        }
        first_equals_found(later, at - 1);
    }
}

/// UTF-8 stays UTF-8 on both sides of an ASCII character.
proof fn utf8_around_ascii(bytes: Seq<u8>, at: int)
    requires
        vstd::utf8::valid_utf8(bytes),
        0 <= at < bytes.len(),
        bytes[at] < 0x80,
    ensures
        vstd::utf8::valid_utf8(bytes.take(at)),
        vstd::utf8::valid_utf8(bytes.skip(at + 1)),
{
    vstd::utf8::is_char_boundary_iff_not_is_continuation_byte(bytes, at);
    vstd::utf8::valid_utf8_split(bytes, at);
    let tail = bytes.subrange(at, bytes.len() as int);
    assert(bytes.take(at) == bytes.subrange(0, at));
    assert(vstd::utf8::valid_utf8(tail));
    assert(tail[0] == bytes[at]);
    assert(vstd::utf8::pop_first_scalar(tail) == bytes.skip(at + 1));
}

/// Where the first `=` of an argument stands, or its length.
fn find_equals(arg: &[u8]) -> (at: usize)
    ensures
        at == first_equals(arg@),
        at < arg@.len() ==> arg@[at as int] == '=' as u8,
        at <= arg@.len(),
{
    let mut at: usize = 0;
    while at < arg.len() && arg[at] != '=' as u8
        invariant
            at <= arg.len(),
            forall|j: int| 0 <= j < at ==> arg@[j] != '=' as u8,
        decreases arg.len() - at,
    {
        at += 1;
    }
    proof {
        first_equals_found(arg@, at as int);
    }
    at
}

/// An option and the value written behind it with a `=`.
fn split<'a>(arg: &'a [u8]) -> (parts: (&'a [u8], Option<&'a [u8]>))
    requires
        vstd::utf8::valid_utf8(arg@),
    ensures
        parts.0@ == split_option(arg@).0,
        match parts.1 {
            Some(value) => split_option(arg@).1 == Some(value@),
            None => split_option(arg@).1 is None,
        },
        vstd::utf8::valid_utf8(parts.0@),
        parts.1 is Some ==> vstd::utf8::valid_utf8(parts.1->0@),
{
    let at: usize = find_equals(arg);
    if 2 <= at && at < arg.len() && arg[0] == '-' as u8 && arg[1] == '-' as u8 {
        proof {
            utf8_around_ascii(arg@, at as int);
        }
        let flag = slice_subrange(arg, 0, at);
        let value = slice_subrange(arg, at + 1, arg.len());
        assert(flag@ == arg@.take(at as int));
        assert(value@ == arg@.skip(at + 1));
        (flag, Some(value))
    } else {
        (arg, None)
    }
}

/// The text of bytes that are UTF-8.
fn text(bytes: &[u8]) -> (text: String)
    requires
        vstd::utf8::valid_utf8(bytes@),
    ensures
        text@ == text_of(bytes@),
{
    match utf8_text(bytes) {
        Some(text) => text,
        None => String::new(),
    }
}

/// The value of the option at `at`, and where the arguments go on behind it.
fn value(args: &Vec<Vec<u8>>, at: usize, flag: &[u8], inline: Option<&[u8]>) -> (result: Result<
    (String, usize),
    String,
>)
    requires
        at < args@.len(),
        vstd::utf8::valid_utf8(flag@),
        inline is Some ==> vstd::utf8::valid_utf8(inline->0@),
    ensures
        ({
            let given = match inline {
                Some(value) => Some(value@),
                None => None,
            };
            match result {
                Ok((value, next)) => option_value(arg_views(args@), at as int, flag@, given)
                    == Ok::<(Seq<char>, int), Seq<char>>((value@, next as int)) && at < next
                    <= args@.len(),
                Err(reason) => option_value(arg_views(args@), at as int, flag@, given)
                    == Err::<(Seq<char>, int), Seq<char>>(reason@),
            }
        }),
{
    let count: usize = args.len();
    if let Some(value) = inline {
        return Ok((text(value), at + 1));
    }
    if at + 1 < count {
        if let Some(value) = utf8_text(args[at + 1].as_slice()) {
            return Ok((value, at + 2));
        }
    }
    Err(joined(text(flag).as_str(), " needs a value"))
}

/// The value of the option at `at` where it must be the name of a session.
fn name_value(args: &Vec<Vec<u8>>, at: usize, flag: &[u8], inline: Option<&[u8]>) -> (result:
    Result<(String, usize), String>)
    requires
        at < args@.len(),
        vstd::utf8::valid_utf8(flag@),
        inline is Some ==> vstd::utf8::valid_utf8(inline->0@),
    ensures
        ({
            let given = match inline {
                Some(value) => Some(value@),
                None => None,
            };
            match result {
                Ok((value, next)) => option_name(arg_views(args@), at as int, flag@, given)
                    == Ok::<(Seq<char>, int), Seq<char>>((value@, next as int)) && at < next
                    <= args@.len(),
                Err(reason) => option_name(arg_views(args@), at as int, flag@, given)
                    == Err::<(Seq<char>, int), Seq<char>>(reason@),
            }
        }),
{
    match value(args, at, flag, inline) {
        Ok((name, next)) => match session_name(name) {
            Ok(name) => Ok((name, next)),
            Err(reason) => Err(reason),
        },
        Err(reason) => Err(reason),
    }
}

/// Whether an option is the one with this name.
fn is(flag: &[u8], name: &str) -> (same: bool)
    ensures
        same == (flag@ == bytes_of(name@)),
{
    same_bytes(flag, name.as_bytes())
}

/// Reads the option at `at`.
fn read_option(args: &Vec<Vec<u8>>, at: usize, flags: &mut Flags) -> (result: Result<Read, String>)
    requires
        at < args@.len(),
        vstd::utf8::valid_utf8(args@[at as int]@),
    ensures
        match result {
            Ok(Read::Next(next)) => scan_option(arg_views(args@), at as int, old(flags)@)
                == Scan::Command(final(flags)@, next as int) && at < next <= args@.len(),
            Ok(Read::Show(action)) => scan_option(arg_views(args@), at as int, old(flags)@)
                == Scan::Show(action@),
            Err(reason) => scan_option(arg_views(args@), at as int, old(flags)@) == Scan::Fail(
                reason@,
            ),
        },
{
    let count: usize = args.len();
    let arg = args[at].as_slice();
    let (flag, inline) = split(arg);
    if is(flag, "-s") || is(flag, "--session") {
        match name_value(args, at, flag, inline) {
            Ok((name, next)) => {
                flags.session = Some(name);
                Ok(Read::Next(next))
            },
            Err(reason) => Err(reason),
        }
    } else if is(flag, "-n") || is(flag, "--name") {
        match name_value(args, at, flag, inline) {
            Ok((name, next)) => {
                flags.name = Some(name);
                Ok(Read::Next(next))
            },
            Err(reason) => Err(reason),
        }
    } else if is(flag, "-d") || is(flag, "--disconnect") {
        if inline.is_none() && at + 1 == count {
            flags.disconnect = Some(None);
            return Ok(Read::Next(at + 1));
        }
        match name_value(args, at, flag, inline) {
            Ok((name, next)) => {
                flags.disconnect = Some(Some(name));
                Ok(Read::Next(next))
            },
            Err(reason) => Err(reason),
        }
    } else if is(flag, "-k") || is(flag, "--detach-key") {
        match value(args, at, flag, inline) {
            Ok((text, next)) => match parse_key(text.as_str()) {
                Ok(key) => {
                    flags.detach_key = Some(key);
                    Ok(Read::Next(next))
                },
                Err(reason) => Err(reason),
            },
            Err(reason) => Err(reason),
        }
    } else if is(flag, "-l") || is(flag, "--list") {
        if inline.is_some() {
            return Err(joined(text(flag).as_str(), " takes no value"));
        }
        flags.list = true;
        Ok(Read::Next(at + 1))
    } else if is(flag, "--status") {
        if inline.is_some() {
            return Err(joined(text(flag).as_str(), " takes no value"));
        }
        flags.status = true;
        Ok(Read::Next(at + 1))
    } else if is(flag, "-h") || is(flag, "--help") {
        Ok(Read::Show(Action::Help))
    } else if is(flag, "-V") || is(flag, "--version") {
        Ok(Read::Show(Action::Version))
    } else {
        Err(joined("unknown option ", text(arg).as_str()))
    }
}

/// The key that detaches.
fn choose_key(given: Option<u8>, env: Option<&str>) -> (result: Result<u8, String>)
    ensures
        ({
            let text = match env {
                Some(text) => Some(text@),
                None => None,
            };
            match result {
                Ok(key) => detach_key_of(given, text) == Ok::<u8, Seq<char>>(key),
                Err(reason) => detach_key_of(given, text) == Err::<u8, Seq<char>>(reason@),
            }
        }),
{
    match given {
        Some(key) => Ok(key),
        None => match env {
            Some(text) => match parse_key(text) {
                Ok(key) => Ok(key),
                Err(reason) => Err(joined("BOOP_DETACH_KEY: ", reason.as_str())),
            },
            None => Ok(DEFAULT_DETACH_KEY),
        },
    }
}

fn choose_action(flags: Flags, command: Vec<Vec<u8>>, env: Option<&str>) -> (result: Result<
    Options,
    String,
>)
    ensures
        options_view(result) == settle(
            flags@,
            arg_views(command@),
            match env {
                Some(text) => Some(text@),
                None => None,
            },
        ),
{
    let detach_key: u8 = match choose_key(flags.detach_key, env) {
        Ok(key) => key,
        Err(reason) => return Err(reason),
    };
    let mut count: u32 = 0;
    if flags.session.is_some() {
        count += 1;
    }
    if flags.name.is_some() {
        count += 1;
    }
    if flags.disconnect.is_some() {
        count += 1;
    }
    if flags.list {
        count += 1;
    }
    if count > 1 {
        return Err("--session, --name, --disconnect and --list are exclusive".to_owned());
    }
    if flags.status && count > 0 {
        return Err("--status excludes --session, --name, --disconnect and --list".to_owned());
    }
    let takes_command: bool = flags.name.is_none() && flags.disconnect.is_none() && !flags.list
        && !flags.status;
    if command.len() > 0 && !takes_command {
        return Err("a command is only accepted with --session or alone".to_owned());
    }
    let action = if let Some(session) = flags.name {
        Action::Attach { session }
    } else if let Some(named) = flags.disconnect {
        match named {
            Some(session) => Action::Disconnect { session },
            None => Action::DisconnectCurrent,
        }
    } else if flags.list {
        Action::List
    } else if flags.status {
        Action::Status
    } else if let Some(session) = flags.session {
        Action::Open { session, command }
    } else if command.len() == 0 {
        Action::Auto
    } else {
        Action::Open { session: DEFAULT_SESSION.to_owned(), command }
    };
    Ok(Options { action, detach_key })
}

/// Reads a command line: the arguments behind the program's own name, and the detach
/// key that the environment names.
pub fn parse(args: Vec<Vec<u8>>, env_detach_key: Option<&str>) -> (result: Result<Options, String>)
    ensures
        options_view(result) == parsed(
            arg_views(args@),
            match env_detach_key {
                Some(text) => Some(text@),
                None => None,
            },
        ),
{
    let mut rest = args;
    let ghost views = arg_views(args@);
    let mut flags = Flags {
        session: None,
        name: None,
        disconnect: None,
        list: false,
        status: false,
        detach_key: None,
    };
    let mut at: usize = 0;
    while at < rest.len() && rest[at].len() > 1 && rest[at][0] == '-' as u8 && utf8_text(
        rest[at].as_slice(),
    ).is_some()
        invariant
            at <= rest@.len(),
            views == arg_views(rest@),
            views == arg_views(args@),
            scan_args(views, 0, Given::nothing()) == scan_args(views, at as int, flags@),
        decreases rest.len() - at,
    {
        if is(rest[at].as_slice(), "--") {
            at += 1;
            let command = rest.split_off(at);
            assert(arg_views(command@) == views.skip(at as int));
            return choose_action(flags, command, env_detach_key);
        }
        match read_option(&rest, at, &mut flags) {
            Ok(Read::Next(next)) => at = next,
            Ok(Read::Show(action)) => return Ok(Options { action, detach_key: DEFAULT_DETACH_KEY }),
            Err(reason) => return Err(reason),
        }
    }
    let command = rest.split_off(at);
    assert(arg_views(command@) == views.skip(at as int));
    choose_action(flags, command, env_detach_key)
}

/// What is said about a command line that is refused for a reason.
pub fn usage_error(reason: &str) -> (text: String)
    ensures
        text@ == reason@ + "\n"@ + USAGE@,
{
    enclosed(reason, "\n", USAGE)
}

} // verus!
