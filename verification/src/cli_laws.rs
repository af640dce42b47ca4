//! What holds of command lines.

use vstd::prelude::*;

use crate::cli::{Given, Request, Requested, Scan, DEFAULT_DETACH_KEY, DEFAULT_SESSION};

verus! {

/// A key read from how it is written is that key, for every key that can be read.
pub proof fn key_reads_back(key: u8)
    requires
        key < 0x20 || key == 0x7f,
    ensures
        crate::cli::key_of(crate::cli::name_of_key(key)) == Some(key),
{
}

/// A key is written back as it was read, with a capital letter.
pub proof fn key_is_written_back(text: Seq<char>)
    requires
        crate::cli::key_of(text) is Some,
    ensures
        crate::cli::name_of_key(crate::cli::key_of(text)->0) == seq![
            '^',
            crate::cli::capital(text[1]),
        ],
{
}

/// The name of a session is the name of one file: it holds no separator and no NUL, and
/// is neither the directory itself nor the one above it.
pub proof fn name_is_one_file(name: Seq<char>)
    requires
        crate::cli::valid_name(name),
    ensures
        !name.contains('/'),
        !name.contains('\0'),
        name != seq!['.'],
        name != seq!['.', '.'],
{
}

/// The names in the options given are names of sessions.
pub open spec fn given_names_valid(given: Given) -> bool {
    &&& given.session is Some ==> crate::cli::valid_name(given.session->0)
    &&& given.name is Some ==> crate::cli::valid_name(given.name->0)
    &&& given.disconnect matches Some(Some(name)) ==> crate::cli::valid_name(name)
}

/// The session that a request names, if it names one, has a valid name.
pub open spec fn request_name_valid(request: Request) -> bool {
    match request {
        Request::Open { session, .. } => crate::cli::valid_name(session),
        Request::Attach { session } => crate::cli::valid_name(session),
        Request::Disconnect { session } => crate::cli::valid_name(session),
        _ => true,
    }
}

proof fn scanned_names_are_valid(args: Seq<Seq<u8>>, at: int, given: Given)
    requires
        given_names_valid(given),
    ensures
        crate::cli::scan_args(args, at, given) matches Scan::Command(after, _)
            ==> given_names_valid(after),
        crate::cli::scan_args(args, at, given) matches Scan::Show(request)
            ==> request_name_valid(request),
    decreases args.len() - at,
{
    if 0 <= at < args.len() && crate::cli::is_option(args[at]) && args[at]
        != crate::cli::bytes_of("--"@) {
        if let Scan::Command(more, next) = crate::cli::scan_option(args, at, given) {
            scanned_names_are_valid(args, next, more);
        }
    }
}

/// Whatever the command line, a session that it names has a valid name.
pub proof fn parsed_names_are_valid(args: Seq<Seq<u8>>, env: Option<Seq<char>>)
    ensures
        crate::cli::parsed(args, env) matches Ok(requested) ==> request_name_valid(
            requested.action,
        ),
{
    reveal_strlit("boop");
    scanned_names_are_valid(args, 0, Given::nothing());
}

/// A command alone runs, as it stands, in the default session.
pub proof fn command_opens_default_session(command: Seq<Seq<u8>>)
    requires
        command.len() > 0,
        !crate::cli::is_option(command[0]),
    ensures
        crate::cli::parsed(command, None) == Ok::<Requested, Seq<char>>(
            Requested {
                action: Request::Open { session: DEFAULT_SESSION@, command },
                detach_key: DEFAULT_DETACH_KEY,
            },
        ),
{
    assert(command.skip(0) == command);
}

/// Behind `--` everything is the command, even what looks like an option.
pub proof fn double_dash_ends_options(command: Seq<Seq<u8>>)
    ensures
        crate::cli::parsed(seq![crate::cli::bytes_of("--"@)] + command, None) == Ok::<
            Requested,
            Seq<char>,
        >(
            Requested {
                action: if command.len() == 0 {
                    Request::Auto
                } else {
                    Request::Open { session: DEFAULT_SESSION@, command }
                },
                detach_key: DEFAULT_DETACH_KEY,
            },
        ),
{
    let args = seq![crate::cli::bytes_of("--"@)] + command;
    reveal_strlit("--");
    vstd::utf8::encode_utf8_valid_utf8("--"@);
    vstd::utf8::is_ascii_chars_encode_utf8("--"@);
    assert(args[0] == crate::cli::bytes_of("--"@));
    assert(crate::cli::is_option(args[0]));
    assert(args.skip(1) == command);
}

/// Whether a key is one that can be written: a control character or delete.
pub open spec fn control_key(key: u8) -> bool {
    key < 0x20 || key == 0x7f
}

proof fn read_key_is_a_control_key(text: Seq<char>)
    ensures
        crate::cli::key_of(text) matches Some(key) ==> control_key(key),
{
}

proof fn scanned_key_is_a_control_key(args: Seq<Seq<u8>>, at: int, given: Given)
    requires
        given.detach_key matches Some(key) ==> control_key(key),
    ensures
        crate::cli::scan_args(args, at, given) matches Scan::Command(after, _) ==> (
        after.detach_key matches Some(key) ==> control_key(key)),
    decreases args.len() - at,
{
    if 0 <= at < args.len() && crate::cli::is_option(args[at]) && args[at]
        != crate::cli::bytes_of("--"@) {
        if let Scan::Command(more, next) = crate::cli::scan_option(args, at, given) {
            scanned_key_is_a_control_key(args, next, more);
        }
    }
}

/// Whatever the command line and the environment, the key that detaches is a control
/// character or delete.
pub proof fn detach_key_is_a_control_key(args: Seq<Seq<u8>>, env: Option<Seq<char>>)
    ensures
        crate::cli::parsed(args, env) matches Ok(requested) ==> control_key(requested.detach_key),
{
    scanned_key_is_a_control_key(args, 0, Given::nothing());
    if let Some(text) = env {
        read_key_is_a_control_key(text);
    }
}

/// What the arguments from `at` on ask for, behind the options already given.
pub open spec fn asked_from(
    args: Seq<Seq<u8>>,
    at: int,
    given: Given,
    env: Option<Seq<char>>,
) -> Result<Requested, Seq<char>> {
    match crate::cli::scan_args(args, at, given) {
        Scan::Command(more, next) => crate::cli::settle(more, args.skip(next), env),
        Scan::Show(action) => Ok(Requested { action, detach_key: DEFAULT_DETACH_KEY }),
        Scan::Fail(reason) => Err(reason),
    }
}

/// The same scan, with the command behind it beginning so much later.
spec fn shifted(scan: Scan, by: int) -> Scan {
    match scan {
        Scan::Command(given, at) => Scan::Command(given, at + by),
        end => end,
    }
}

proof fn option_shifts(
    args: Seq<Seq<u8>>,
    at: int,
    others: Seq<Seq<u8>>,
    there: int,
    given: Given,
)
    requires
        0 <= at < args.len(),
        0 <= there < others.len(),
        args.skip(at) == others.skip(there),
    ensures
        crate::cli::scan_option(others, there, given) == shifted(
            crate::cli::scan_option(args, at, given),
            there - at,
        ),
{
    assert(args.skip(at).len() == args.len() - at);
    assert(others.skip(there).len() == others.len() - there);
    assert(args[at] == args.skip(at)[0]);
    assert(others[there] == others.skip(there)[0]);
    if at + 1 < args.len() {
        assert(args[at + 1] == args.skip(at)[1]);
        assert(others[there + 1] == others.skip(there)[1]);
    }
}

/// What arguments come to does not depend on how many stand before them.
proof fn scan_shifts(
    args: Seq<Seq<u8>>,
    at: int,
    others: Seq<Seq<u8>>,
    there: int,
    given: Given,
)
    requires
        0 <= at <= args.len(),
        0 <= there <= others.len(),
        args.skip(at) == others.skip(there),
    ensures
        crate::cli::scan_args(others, there, given) == shifted(
            crate::cli::scan_args(args, at, given),
            there - at,
        ),
    decreases args.len() - at,
{
    assert(args.skip(at).len() == args.len() - at);
    assert(others.skip(there).len() == others.len() - there);
    if at < args.len() {
        assert(args[at] == args.skip(at)[0]);
        assert(others[there] == others.skip(there)[0]);
        if crate::cli::is_option(args[at]) && args[at] != crate::cli::bytes_of("--"@) {
            option_shifts(args, at, others, there, given);
            if let Scan::Command(more, next) = crate::cli::scan_option(args, at, given) {
                let by = there - at;
                assert(at < next <= args.len());
                assert(args.skip(next) == args.skip(at).skip(next - at));
                assert(others.skip(next + by) == others.skip(there).skip(next - at));
                scan_shifts(args, next, others, next + by, more);
            }
        }
    }
}

proof fn scan_stays_inside(args: Seq<Seq<u8>>, at: int, given: Given)
    requires
        0 <= at <= args.len(),
    ensures
        crate::cli::scan_args(args, at, given) matches Scan::Command(_, next) ==> at <= next
            <= args.len(),
    decreases args.len() - at,
{
    if at < args.len() && crate::cli::is_option(args[at]) && args[at]
        != crate::cli::bytes_of("--"@) {
        if let Scan::Command(more, next) = crate::cli::scan_option(args, at, given) {
            scan_stays_inside(args, next, more);
        }
    }
}

/// What arguments ask for, behind the options already given, does not depend on what
/// stands before them.
pub proof fn asking_shifts(
    args: Seq<Seq<u8>>,
    at: int,
    others: Seq<Seq<u8>>,
    there: int,
    given: Given,
    env: Option<Seq<char>>,
)
    requires
        0 <= at <= args.len(),
        0 <= there <= others.len(),
        args.skip(at) == others.skip(there),
    ensures
        asked_from(args, at, given, env) == asked_from(others, there, given, env),
{
    scan_shifts(args, at, others, there, given);
    scan_stays_inside(args, at, given);
    if let Scan::Command(_, next) = crate::cli::scan_args(args, at, given) {
        assert(args.skip(next) == args.skip(at).skip(next - at));
        assert(others.skip(next + there - at) == others.skip(there).skip(next - at));
    }
}

/// Whether these are the long and the short form of an option with a value.
pub open spec fn spellings(long: Seq<char>, short: Seq<char>) -> bool {
    ||| long == "--session"@ && short == "-s"@
    ||| long == "--name"@ && short == "-n"@
    ||| long == "--disconnect"@ && short == "-d"@
    ||| long == "--detach-key"@ && short == "-k"@
}

/// The options given once the option with this long form has this value, or why it is
/// refused.
spec fn with_value(long: Seq<char>, value: Seq<char>, given: Given) -> Result<Given, Seq<char>> {
    if long == "--detach-key"@ {
        match crate::cli::key_of(value) {
            Some(key) => Ok(Given { detach_key: Some(key), ..given }),
            None => Err(crate::cli::invalid_key(value)),
        }
    } else if !crate::cli::valid_name(value) {
        Err(crate::cli::invalid_name(value))
    } else if long == "--session"@ {
        Ok(Given { session: Some(value), ..given })
    } else if long == "--name"@ {
        Ok(Given { name: Some(value), ..given })
    } else {
        Ok(Given { disconnect: Some(Some(value)), ..given })
    }
}

proof fn bytes_differ(one: Seq<char>, other: Seq<char>)
    requires
        one != other,
    ensures
        crate::cli::bytes_of(one) != crate::cli::bytes_of(other),
{
    vstd::utf8::encode_utf8_decode_utf8(one);
    vstd::utf8::encode_utf8_decode_utf8(other);
}

proof fn literals()
    ensures
        "-s"@ == seq!['-', 's'],
        "-n"@ == seq!['-', 'n'],
        "-d"@ == seq!['-', 'd'],
        "-k"@ == seq!['-', 'k'],
        "--session"@ == seq!['-', '-', 's', 'e', 's', 's', 'i', 'o', 'n'],
        "--name"@ == seq!['-', '-', 'n', 'a', 'm', 'e'],
        "--disconnect"@ == seq!['-', '-', 'd', 'i', 's', 'c', 'o', 'n', 'n', 'e', 'c', 't'],
        "--detach-key"@ == seq!['-', '-', 'd', 'e', 't', 'a', 'c', 'h', '-', 'k', 'e', 'y'],
        "--"@ == seq!['-', '-'],
{
    reveal_strlit("-s");
    reveal_strlit("-n");
    reveal_strlit("-d");
    reveal_strlit("-k");
    reveal_strlit("--session");
    reveal_strlit("--name");
    reveal_strlit("--disconnect");
    reveal_strlit("--detach-key");
    reveal_strlit("--");
}

/// What an option with a value does, however it is spelled.
proof fn option_with_value(
    args: Seq<Seq<u8>>,
    given: Given,
    long: Seq<char>,
    short: Seq<char>,
    value: Seq<char>,
    next: int,
)
    requires
        args.len() > 0,
        spellings(long, short),
        ({
            let (flag, inline) = crate::cli::split_option(args[0]);
            &&& flag == crate::cli::bytes_of(long) || flag == crate::cli::bytes_of(short)
            &&& crate::cli::option_value(args, 0, flag, inline) == Ok::<
                (Seq<char>, int),
                Seq<char>,
            >((value, next))
        }),
    ensures
        crate::cli::scan_option(args, 0, given) == match with_value(long, value, given) {
            Ok(more) => Scan::Command(more, next),
            Err(reason) => Scan::Fail(reason),
        },
{
    literals();
    assert("--disconnect"@[3] != "--detach-key"@[3]);
    assert("-s"@[1] != "-n"@[1] && "-s"@[1] != "-d"@[1] && "-s"@[1] != "-k"@[1]);
    assert("-n"@[1] != "-d"@[1] && "-n"@[1] != "-k"@[1] && "-d"@[1] != "-k"@[1]);
    if long != "--session"@ {
        bytes_differ(long, "--session"@);
        bytes_differ(short, "--session"@);
        bytes_differ(long, "-s"@);
        bytes_differ(short, "-s"@);
        if long != "--name"@ {
            bytes_differ(long, "--name"@);
            bytes_differ(short, "--name"@);
            bytes_differ(long, "-n"@);
            bytes_differ(short, "-n"@);
            if long != "--disconnect"@ {
                bytes_differ(long, "--disconnect"@);
                bytes_differ(short, "--disconnect"@);
                bytes_differ(long, "-d"@);
                bytes_differ(short, "-d"@);
            }
        }
    }
}

/// The bytes of the two forms of an option, and that only a `=` behind the long form
/// splits it.
proof fn spelling_bytes(long: Seq<char>, short: Seq<char>, value: Seq<u8>)
    requires
        spellings(long, short),
        vstd::utf8::valid_utf8(value),
    ensures
        ({
            let flag = crate::cli::bytes_of(long);
            let brief = crate::cli::bytes_of(short);
            let inline = flag + seq!['=' as u8] + value;
            let end = crate::cli::bytes_of("--"@);
            &&& crate::cli::is_option(flag) && flag != end
            &&& crate::cli::is_option(brief) && brief != end
            &&& crate::cli::is_option(inline) && inline != end
            &&& crate::cli::split_option(flag) == (flag, None::<Seq<u8>>)
            &&& crate::cli::split_option(brief) == (brief, None::<Seq<u8>>)
            &&& crate::cli::split_option(inline) == (flag, Some(value))
        }),
{
    let flag = crate::cli::bytes_of(long);
    let brief = crate::cli::bytes_of(short);
    let sign = seq!['=' as u8];
    let inline = flag + sign + value;
    literals();
    vstd::utf8::is_ascii_chars_encode_utf8(long);
    vstd::utf8::is_ascii_chars_encode_utf8(short);
    vstd::utf8::is_ascii_chars_encode_utf8("--"@);
    vstd::utf8::encode_utf8_valid_utf8(long);
    vstd::utf8::encode_utf8_valid_utf8(short);
    vstd::utf8::encode_utf8_valid_utf8(seq!['=']);
    vstd::utf8::is_ascii_chars_encode_utf8(seq!['=']);
    assert(vstd::utf8::encode_utf8(seq!['=']) == sign);
    vstd::utf8::valid_utf8_concat(flag, sign);
    vstd::utf8::valid_utf8_concat(flag + sign, value);
    assert forall|j: int| 0 <= j < flag.len() implies flag[j] != '=' as u8 by {
        assert(long[j] as u8 == flag[j]);
    }
    crate::cli::first_equals_found(flag, flag.len() as int);
    assert forall|j: int| 0 <= j < flag.len() implies inline[j] != '=' as u8 by {
        assert(inline[j] == flag[j]);
    }
    crate::cli::first_equals_found(inline, flag.len() as int);
    assert(inline.take(flag.len() as int) == flag);
    assert(inline.skip(flag.len() as int + 1) == value);
    assert(short[1] as u8 == brief[1]);
    assert(long[0] as u8 == flag[0] && long[1] as u8 == flag[1] && short[0] as u8 == brief[0]);
}

/// An option with a value may be written with the value behind it, behind a `=`, or in its
/// short form: each asks for the same, whatever the value, whatever was given before and
/// whatever follows, and each is refused for the same reason.
pub proof fn options_are_spelled_alike(
    long: Seq<char>,
    short: Seq<char>,
    value: Seq<u8>,
    rest: Seq<Seq<u8>>,
    given: Given,
    env: Option<Seq<char>>,
)
    requires
        spellings(long, short),
        vstd::utf8::valid_utf8(value),
    ensures
        ({
            let apart = seq![crate::cli::bytes_of(long), value] + rest;
            let inline = seq![crate::cli::bytes_of(long) + seq!['=' as u8] + value] + rest;
            let brief = seq![crate::cli::bytes_of(short), value] + rest;
            &&& asked_from(inline, 0, given, env) == asked_from(apart, 0, given, env)
            &&& asked_from(brief, 0, given, env) == asked_from(apart, 0, given, env)
            &&& given == Given::nothing() ==> {
                &&& crate::cli::parsed(inline, env) == crate::cli::parsed(apart, env)
                &&& crate::cli::parsed(brief, env) == crate::cli::parsed(apart, env)
            }
        }),
{
    let flag = crate::cli::bytes_of(long);
    let apart = seq![flag, value] + rest;
    let inline = seq![flag + seq!['=' as u8] + value] + rest;
    let brief = seq![crate::cli::bytes_of(short), value] + rest;
    let text = crate::cli::text_of(value);
    spelling_bytes(long, short, value);
    assert(apart[0] == flag && apart[1] == value);
    assert(inline[0] == flag + seq!['=' as u8] + value);
    assert(brief[0] == crate::cli::bytes_of(short) && brief[1] == value);
    option_with_value(apart, given, long, short, text, 2);
    option_with_value(inline, given, long, short, text, 1);
    option_with_value(brief, given, long, short, text, 2);
    if let Ok(more) = with_value(long, text, given) {
        assert(apart.skip(2) == rest);
        assert(inline.skip(1) == rest);
        assert(brief.skip(2) == rest);
        asking_shifts(apart, 2, inline, 1, more, env);
        asking_shifts(apart, 2, brief, 2, more, env);
    }
}

proof fn one_flag(flag: Seq<char>)
    requires
        vstd::utf8::is_ascii_chars(flag),
        forall|i: int| 0 <= i < flag.len() ==> flag[i] != '=',
    ensures
        crate::cli::bytes_of(flag).len() == flag.len(),
        forall|i: int|
            0 <= i < flag.len() ==> (#[trigger] crate::cli::bytes_of(flag)[i]) == flag[i] as int,
        !crate::cli::bytes_of(flag).contains(0x3d),
        vstd::utf8::valid_utf8(crate::cli::bytes_of(flag)),
        crate::cli::text_of(crate::cli::bytes_of(flag)) == flag,
{
    vstd::utf8::is_ascii_chars_encode_utf8(flag);
    vstd::utf8::encode_utf8_valid_utf8(flag);
    vstd::utf8::encode_utf8_decode_utf8(flag);
    let bytes = crate::cli::bytes_of(flag);
    if bytes.contains(0x3d) {
        let i = choose|i: int| 0 <= i < bytes.len() && bytes[i] == 0x3d;
        assert(flag[i] as u8 == bytes[i]);
    }
}

/// The options, byte by byte as far as they differ.
proof fn flags()
    ensures
        crate::cli::bytes_of("-s"@).len() == 2,
        crate::cli::bytes_of("-s"@)[0] == 45,
        crate::cli::bytes_of("-s"@)[1] == 115,
        crate::cli::bytes_of("-s"@).contains(0x3d) == false,
        vstd::utf8::valid_utf8(crate::cli::bytes_of("-s"@)),
        crate::cli::text_of(crate::cli::bytes_of("-s"@)) == "-s"@,
        crate::cli::bytes_of("--session"@).len() == 9,
        crate::cli::bytes_of("--session"@)[0] == 45,
        crate::cli::bytes_of("--session"@)[1] == 45,
        crate::cli::bytes_of("--session"@)[2] == 115,
        crate::cli::bytes_of("--session"@)[3] == 101,
        crate::cli::bytes_of("--session"@).contains(0x3d) == false,
        vstd::utf8::valid_utf8(crate::cli::bytes_of("--session"@)),
        crate::cli::text_of(crate::cli::bytes_of("--session"@)) == "--session"@,
        crate::cli::bytes_of("-n"@).len() == 2,
        crate::cli::bytes_of("-n"@)[0] == 45,
        crate::cli::bytes_of("-n"@)[1] == 110,
        crate::cli::bytes_of("-n"@).contains(0x3d) == false,
        vstd::utf8::valid_utf8(crate::cli::bytes_of("-n"@)),
        crate::cli::text_of(crate::cli::bytes_of("-n"@)) == "-n"@,
        crate::cli::bytes_of("--name"@).len() == 6,
        crate::cli::bytes_of("--name"@)[0] == 45,
        crate::cli::bytes_of("--name"@)[1] == 45,
        crate::cli::bytes_of("--name"@)[2] == 110,
        crate::cli::bytes_of("--name"@)[3] == 97,
        crate::cli::bytes_of("--name"@).contains(0x3d) == false,
        vstd::utf8::valid_utf8(crate::cli::bytes_of("--name"@)),
        crate::cli::text_of(crate::cli::bytes_of("--name"@)) == "--name"@,
        crate::cli::bytes_of("-d"@).len() == 2,
        crate::cli::bytes_of("-d"@)[0] == 45,
        crate::cli::bytes_of("-d"@)[1] == 100,
        crate::cli::bytes_of("-d"@).contains(0x3d) == false,
        vstd::utf8::valid_utf8(crate::cli::bytes_of("-d"@)),
        crate::cli::text_of(crate::cli::bytes_of("-d"@)) == "-d"@,
        crate::cli::bytes_of("--disconnect"@).len() == 12,
        crate::cli::bytes_of("--disconnect"@)[0] == 45,
        crate::cli::bytes_of("--disconnect"@)[1] == 45,
        crate::cli::bytes_of("--disconnect"@)[2] == 100,
        crate::cli::bytes_of("--disconnect"@)[3] == 105,
        crate::cli::bytes_of("--disconnect"@).contains(0x3d) == false,
        vstd::utf8::valid_utf8(crate::cli::bytes_of("--disconnect"@)),
        crate::cli::text_of(crate::cli::bytes_of("--disconnect"@)) == "--disconnect"@,
        crate::cli::bytes_of("-k"@).len() == 2,
        crate::cli::bytes_of("-k"@)[0] == 45,
        crate::cli::bytes_of("-k"@)[1] == 107,
        crate::cli::bytes_of("-k"@).contains(0x3d) == false,
        vstd::utf8::valid_utf8(crate::cli::bytes_of("-k"@)),
        crate::cli::text_of(crate::cli::bytes_of("-k"@)) == "-k"@,
        crate::cli::bytes_of("--detach-key"@).len() == 12,
        crate::cli::bytes_of("--detach-key"@)[0] == 45,
        crate::cli::bytes_of("--detach-key"@)[1] == 45,
        crate::cli::bytes_of("--detach-key"@)[2] == 100,
        crate::cli::bytes_of("--detach-key"@)[3] == 101,
        crate::cli::bytes_of("--detach-key"@).contains(0x3d) == false,
        vstd::utf8::valid_utf8(crate::cli::bytes_of("--detach-key"@)),
        crate::cli::text_of(crate::cli::bytes_of("--detach-key"@)) == "--detach-key"@,
        crate::cli::bytes_of("-l"@).len() == 2,
        crate::cli::bytes_of("-l"@)[0] == 45,
        crate::cli::bytes_of("-l"@)[1] == 108,
        crate::cli::bytes_of("-l"@).contains(0x3d) == false,
        vstd::utf8::valid_utf8(crate::cli::bytes_of("-l"@)),
        crate::cli::text_of(crate::cli::bytes_of("-l"@)) == "-l"@,
        crate::cli::bytes_of("--list"@).len() == 6,
        crate::cli::bytes_of("--list"@)[0] == 45,
        crate::cli::bytes_of("--list"@)[1] == 45,
        crate::cli::bytes_of("--list"@)[2] == 108,
        crate::cli::bytes_of("--list"@)[3] == 105,
        crate::cli::bytes_of("--list"@).contains(0x3d) == false,
        vstd::utf8::valid_utf8(crate::cli::bytes_of("--list"@)),
        crate::cli::text_of(crate::cli::bytes_of("--list"@)) == "--list"@,
        crate::cli::bytes_of("--status"@).len() == 8,
        crate::cli::bytes_of("--status"@)[0] == 45,
        crate::cli::bytes_of("--status"@)[1] == 45,
        crate::cli::bytes_of("--status"@)[2] == 115,
        crate::cli::bytes_of("--status"@)[3] == 116,
        crate::cli::bytes_of("--status"@).contains(0x3d) == false,
        vstd::utf8::valid_utf8(crate::cli::bytes_of("--status"@)),
        crate::cli::text_of(crate::cli::bytes_of("--status"@)) == "--status"@,
        crate::cli::bytes_of("-h"@).len() == 2,
        crate::cli::bytes_of("-h"@)[0] == 45,
        crate::cli::bytes_of("-h"@)[1] == 104,
        crate::cli::bytes_of("-h"@).contains(0x3d) == false,
        vstd::utf8::valid_utf8(crate::cli::bytes_of("-h"@)),
        crate::cli::text_of(crate::cli::bytes_of("-h"@)) == "-h"@,
        crate::cli::bytes_of("--help"@).len() == 6,
        crate::cli::bytes_of("--help"@)[0] == 45,
        crate::cli::bytes_of("--help"@)[1] == 45,
        crate::cli::bytes_of("--help"@)[2] == 104,
        crate::cli::bytes_of("--help"@)[3] == 101,
        crate::cli::bytes_of("--help"@).contains(0x3d) == false,
        vstd::utf8::valid_utf8(crate::cli::bytes_of("--help"@)),
        crate::cli::text_of(crate::cli::bytes_of("--help"@)) == "--help"@,
        crate::cli::bytes_of("-V"@).len() == 2,
        crate::cli::bytes_of("-V"@)[0] == 45,
        crate::cli::bytes_of("-V"@)[1] == 86,
        crate::cli::bytes_of("-V"@).contains(0x3d) == false,
        vstd::utf8::valid_utf8(crate::cli::bytes_of("-V"@)),
        crate::cli::text_of(crate::cli::bytes_of("-V"@)) == "-V"@,
        crate::cli::bytes_of("--version"@).len() == 9,
        crate::cli::bytes_of("--version"@)[0] == 45,
        crate::cli::bytes_of("--version"@)[1] == 45,
        crate::cli::bytes_of("--version"@)[2] == 118,
        crate::cli::bytes_of("--version"@)[3] == 101,
        crate::cli::bytes_of("--version"@).contains(0x3d) == false,
        vstd::utf8::valid_utf8(crate::cli::bytes_of("--version"@)),
        crate::cli::text_of(crate::cli::bytes_of("--version"@)) == "--version"@,
        crate::cli::bytes_of("--"@).len() == 2,
        crate::cli::bytes_of("--"@)[0] == 45,
        crate::cli::bytes_of("--"@)[1] == 45,
        crate::cli::bytes_of("--"@).contains(0x3d) == false,
        vstd::utf8::valid_utf8(crate::cli::bytes_of("--"@)),
        crate::cli::text_of(crate::cli::bytes_of("--"@)) == "--"@,
{
    reveal_strlit("-s");
    one_flag("-s"@);
    reveal_strlit("--session");
    one_flag("--session"@);
    reveal_strlit("-n");
    one_flag("-n"@);
    reveal_strlit("--name");
    one_flag("--name"@);
    reveal_strlit("-d");
    one_flag("-d"@);
    reveal_strlit("--disconnect");
    one_flag("--disconnect"@);
    reveal_strlit("-k");
    one_flag("-k"@);
    reveal_strlit("--detach-key");
    one_flag("--detach-key"@);
    reveal_strlit("-l");
    one_flag("-l"@);
    reveal_strlit("--list");
    one_flag("--list"@);
    reveal_strlit("--status");
    one_flag("--status"@);
    reveal_strlit("-h");
    one_flag("-h"@);
    reveal_strlit("--help");
    one_flag("--help"@);
    reveal_strlit("-V");
    one_flag("-V"@);
    reveal_strlit("--version");
    one_flag("--version"@);
    reveal_strlit("--");
    one_flag("--"@);
}

/// The name of a session has 1 to 64 characters, each an ASCII letter, a digit or one of
/// `.` `_` `-` `+` `@` `:`, and does not begin with a dot; every such text is one.
pub proof fn session_names(name: Seq<char>)
    ensures
        crate::cli::valid_name(name) <==> {
            &&& 1 <= name.len() <= 64
            &&& name[0] as int != 46
            &&& forall|i: int|
                0 <= i < name.len() ==> {
                    let c = (#[trigger] name[i]) as int;
                    ||| 97 <= c <= 122
                    ||| 65 <= c <= 90
                    ||| 48 <= c <= 57
                    ||| c == 46
                    ||| c == 95
                    ||| c == 45
                    ||| c == 43
                    ||| c == 64
                    ||| c == 58
                }
        },
        crate::cli::invalid_name(name) == "invalid session name "@ + crate::text::debug_text(name)
            + ": use up to 64 of A-Z a-z 0-9 . _ - + @ : not starting with ."@,
{
    if crate::cli::valid_name(name) {
        assert forall|i: int| 0 <= i < name.len() implies {
            let c = (#[trigger] name[i]) as int;
            ||| 97 <= c <= 122
            ||| 65 <= c <= 90
            ||| 48 <= c <= 57
            ||| c == 46
            ||| c == 95
            ||| c == 45
            ||| c == 43
            ||| c == 64
            ||| c == 58
        } by {
            assert(crate::cli::name_char(name[i]));
        }
    }
}

/// A key is written as `^` and one character: from `@` to `_` it stands for the code 64 below
/// it, a small letter for what its capital stands for, and `?` for delete; nothing else is a
/// key. It is written back with the character from `@` to `_`, or `?`.
pub proof fn keys(text: Seq<char>, key: u8)
    ensures
        crate::cli::key_of(text) == if text.len() == 2 && text[0] as int == 94 {
            let c = text[1] as int;
            if c == 63 {
                Some(127u8)
            } else if 64 <= c <= 95 {
                Some((c - 64) as u8)
            } else if 97 <= c <= 122 {
                Some((c - 96) as u8)
            } else {
                None
            }
        } else {
            None
        },
        crate::cli::invalid_key(text) == "invalid key "@ + crate::text::debug_text(text)
            + ": expected ^ and a character from @A-Z[\\]^_?"@,
        crate::cli::name_of_key(key).len() == 2,
        crate::cli::name_of_key(key)[0] == '^',
        key == 127 ==> crate::cli::name_of_key(key)[1] == '?',
        key != 127 ==> crate::cli::name_of_key(key)[1] as int == 64 + key as int % 32,
{
}

/// A command line is read from its first argument on, with nothing given yet.
pub proof fn parsing_starts_with_nothing(args: Seq<Seq<u8>>, env: Option<Seq<char>>)
    ensures
        crate::cli::parsed(args, env) == asked_from(
            args,
            0,
            (Given {
                session: None,
                name: None,
                disconnect: None,
                list: false,
                status: false,
                detach_key: None,
            }),
            env,
        ),
{
}

/// The first argument that is no option begins the command, which is all arguments from there
/// on, whatever was given before. An option begins with a minus sign, has more, and is UTF-8.
pub proof fn the_command_begins_behind_the_options(
    args: Seq<Seq<u8>>,
    given: Given,
    env: Option<Seq<char>>,
)
    requires
        args.len() > 0 ==> !vstd::utf8::valid_utf8(args[0]) || args[0].len() < 2 || args[0][0] != 45,
    ensures
        asked_from(args, 0, given, env) == crate::cli::settle(given, args, env),
{
    assert(args.skip(0) == args);
}

/// Behind `--` everything is the command, whatever was given before it, and `--` itself is no
/// part of it.
pub proof fn double_dash_is_dropped(
    rest: Seq<Seq<u8>>,
    given: Given,
    env: Option<Seq<char>>,
)
    ensures
        asked_from(seq![seq![45u8, 45u8]] + rest, 0, given, env) == crate::cli::settle(
            given,
            rest,
            env,
        ),
{
    flags();
    let args = seq![seq![45u8, 45u8]] + rest;
    assert(seq![45u8, 45u8] == crate::cli::bytes_of("--"@));
    assert(args[0] == crate::cli::bytes_of("--"@));
    assert(args.skip(1) == rest);
}

/// The options given once this one has its value.
pub open spec fn with_name(flag: Seq<char>, value: Seq<char>, given: Given) -> Given {
    if flag == "-s"@ || flag == "--session"@ {
        Given { session: Some(value), ..given }
    } else if flag == "-n"@ || flag == "--name"@ {
        Given { name: Some(value), ..given }
    } else {
        Given { disconnect: Some(Some(value)), ..given }
    }
}

proof fn value_behind(
    flag: Seq<char>,
    value: Seq<u8>,
    rest: Seq<Seq<u8>>,
)
    requires
        flag == "-s"@ || flag == "-n"@ || flag == "-d"@ || flag == "-k"@ || flag == "--session"@
            || flag == "--name"@ || flag == "--disconnect"@ || flag == "--detach-key"@,
    ensures
        ({
            let args = seq![crate::cli::bytes_of(flag), value] + rest;
            let (name, inline) = crate::cli::split_option(args[0]);
            &&& args[0] == crate::cli::bytes_of(flag)
            &&& crate::cli::is_option(args[0]) && args[0] != crate::cli::bytes_of("--"@)
            &&& name == crate::cli::bytes_of(flag) && inline is None
            &&& args.skip(2) == rest
            &&& crate::cli::option_value(args, 0, name, inline)
                == if vstd::utf8::valid_utf8(value) {
                Ok::<(Seq<char>, int), Seq<char>>((vstd::utf8::decode_utf8(value), 2))
            } else {
                Err(flag + " needs a value"@)
            }
        }),
{
    flags();
    plain_flag(flag);
    let args = seq![crate::cli::bytes_of(flag), value] + rest;
    assert(args[0] == crate::cli::bytes_of(flag));
    assert(args[1] == value);
    assert(args.skip(2) == rest);
}

/// An option that names a session takes the argument behind it for the name: a valid name is
/// taken, and reading goes on behind it; anything else is refused for what it is.
pub proof fn named_sessions_are_taken(
    flag: Seq<char>,
    value: Seq<u8>,
    rest: Seq<Seq<u8>>,
    given: Given,
    env: Option<Seq<char>>,
)
    requires
        flag == "-s"@ || flag == "-n"@ || flag == "-d"@ || flag == "--session"@ || flag
            == "--name"@ || flag == "--disconnect"@,
    ensures
        ({
            let name = vstd::utf8::decode_utf8(value);
            asked_from(seq![crate::cli::bytes_of(flag), value] + rest, 0, given, env)
                == if !vstd::utf8::valid_utf8(value) {
                Err(flag + " needs a value"@)
            } else if crate::cli::valid_name(name) {
                asked_from(rest, 0, with_name(flag, name, given), env)
            } else {
                Err(crate::cli::invalid_name(name))
            }
        }),
{
    flags();
    value_behind(flag, value, rest);
    let args = seq![crate::cli::bytes_of(flag), value] + rest;
    let name = vstd::utf8::decode_utf8(value);
    assert(rest.skip(0) == rest);
    asking_shifts(args, 2, rest, 0, with_name(flag, name, given), env);
}

/// The option for the detach key takes the argument behind it for the key.
pub proof fn the_detach_key_is_taken(
    flag: Seq<char>,
    value: Seq<u8>,
    rest: Seq<Seq<u8>>,
    given: Given,
    env: Option<Seq<char>>,
)
    requires
        flag == "-k"@ || flag == "--detach-key"@,
    ensures
        ({
            let text = vstd::utf8::decode_utf8(value);
            asked_from(seq![crate::cli::bytes_of(flag), value] + rest, 0, given, env)
                == if !vstd::utf8::valid_utf8(value) {
                Err(flag + " needs a value"@)
            } else if crate::cli::key_of(text) is None {
                Err(crate::cli::invalid_key(text))
            } else {
                asked_from(
                    rest,
                    0,
                    (Given { detach_key: crate::cli::key_of(text), ..given }),
                    env,
                )
            }
        }),
{
    flags();
    value_behind(flag, value, rest);
    let args = seq![crate::cli::bytes_of(flag), value] + rest;
    let text = vstd::utf8::decode_utf8(value);
    assert(rest.skip(0) == rest);
    asking_shifts(
        args,
        2,
        rest,
        0,
        (Given { detach_key: crate::cli::key_of(text), ..given }),
        env,
    );
}

/// An option that needs a value and has none is refused, by the name that it was given; only
/// the one to disconnect may do without a name and then means the current session.
pub proof fn options_without_a_value(flag: Seq<char>, given: Given, env: Option<Seq<char>>)
    requires
        flag == "-s"@ || flag == "--session"@ || flag == "-n"@ || flag == "--name"@ || flag == "-k"@
            || flag == "--detach-key"@ || flag == "-d"@ || flag == "--disconnect"@,
    ensures
        asked_from(seq![crate::cli::bytes_of(flag)], 0, given, env) == if flag == "-d"@ || flag
            == "--disconnect"@ {
            crate::cli::settle(Given { disconnect: Some(None), ..given }, Seq::empty(), env)
        } else {
            Err(flag + " needs a value"@)
        },
{
    flags();
    let args = seq![crate::cli::bytes_of(flag)];
    assert(args[0] == crate::cli::bytes_of(flag));
    plain_flag(flag);
    assert(args.skip(1) == Seq::<Seq<u8>>::empty());
    let more = Given { disconnect: Some(None), ..given };
    assert(crate::cli::scan_args(args, 1, more) == Scan::Command(more, 1));
}

/// An option without a `=` is not split.
proof fn plain_flag(flag: Seq<char>)
    requires
        !crate::cli::bytes_of(flag).contains(0x3d),
    ensures
        crate::cli::split_option(crate::cli::bytes_of(flag)) == (
            crate::cli::bytes_of(flag),
            None::<Seq<u8>>,
        ),
{
    let bytes = crate::cli::bytes_of(flag);
    assert forall|j: int| 0 <= j < bytes.len() implies bytes[j] != '=' as u8 by {
        assert(bytes.contains(bytes[j]));
    }
    crate::cli::first_equals_found(bytes, bytes.len() as int);
}

/// The options for the list and for the status are noted, and reading goes on behind them.
pub proof fn list_and_status_are_noted(
    flag: Seq<char>,
    rest: Seq<Seq<u8>>,
    given: Given,
    env: Option<Seq<char>>,
)
    requires
        flag == "-l"@ || flag == "--list"@ || flag == "--status"@,
    ensures
        asked_from(seq![crate::cli::bytes_of(flag)] + rest, 0, given, env) == asked_from(
            rest,
            0,
            if flag == "--status"@ {
                Given { status: true, ..given }
            } else {
                Given { list: true, ..given }
            },
            env,
        ),
{
    flags();
    let args = seq![crate::cli::bytes_of(flag)] + rest;
    assert(args[0] == crate::cli::bytes_of(flag));
    plain_flag(flag);
    assert(args.skip(1) == rest);
    assert(rest.skip(0) == rest);
    let more = if flag == "--status"@ {
        Given { status: true, ..given }
    } else {
        Given { list: true, ..given }
    };
    asking_shifts(args, 1, rest, 0, more, env);
}

/// Help and version are shown at once, whatever was given before and whatever follows.
pub proof fn help_and_version_come_at_once(
    flag: Seq<char>,
    rest: Seq<Seq<u8>>,
    given: Given,
    env: Option<Seq<char>>,
)
    requires
        flag == "-h"@ || flag == "--help"@ || flag == "-V"@ || flag == "--version"@,
    ensures
        asked_from(seq![crate::cli::bytes_of(flag)] + rest, 0, given, env) == Ok::<
            Requested,
            Seq<char>,
        >(
            Requested {
                action: if flag == "-h"@ || flag == "--help"@ {
                    Request::Help
                } else {
                    Request::Version
                },
                detach_key: 0x1c,
            },
        ),
{
    flags();
    let args = seq![crate::cli::bytes_of(flag)] + rest;
    assert(args[0] == crate::cli::bytes_of(flag));
    plain_flag(flag);
}

/// Whether an argument is the long option `name`, alone or with a value behind a `=`.
pub open spec fn is_long(arg: Seq<u8>, name: Seq<char>) -> bool {
    let bytes = crate::cli::bytes_of(name);
    arg == bytes || (arg.len() > bytes.len() && arg.take(bytes.len() as int) == bytes
        && arg[bytes.len() as int] == 0x3d)
}

proof fn split_is_long(arg: Seq<u8>, name: Seq<char>)
    requires
        crate::cli::split_option(arg).0 == crate::cli::bytes_of(name),
    ensures
        is_long(arg, name),
{
    let at = crate::cli::first_equals(arg) as int;
    first_equals_holds(arg);
}

proof fn first_equals_holds(arg: Seq<u8>)
    ensures
        crate::cli::first_equals(arg) <= arg.len(),
        crate::cli::first_equals(arg) < arg.len() ==> arg[crate::cli::first_equals(arg) as int]
            == 0x3d,
    decreases arg.len(),
{
    if arg.len() > 0 && arg[0] != '=' as u8 {
        first_equals_holds(arg.drop_first());
    }
}

/// Any other option is refused, and named as it was written.
pub proof fn other_options_are_refused(
    arg: Seq<u8>,
    rest: Seq<Seq<u8>>,
    given: Given,
    env: Option<Seq<char>>,
)
    requires
        vstd::utf8::valid_utf8(arg),
        arg.len() >= 2,
        arg[0] == 45,
        arg != crate::cli::bytes_of("--"@),
        arg != crate::cli::bytes_of("-s"@),
        arg != crate::cli::bytes_of("-n"@),
        arg != crate::cli::bytes_of("-d"@),
        arg != crate::cli::bytes_of("-k"@),
        arg != crate::cli::bytes_of("-l"@),
        arg != crate::cli::bytes_of("-h"@),
        arg != crate::cli::bytes_of("-V"@),
        !is_long(arg, "--session"@),
        !is_long(arg, "--name"@),
        !is_long(arg, "--disconnect"@),
        !is_long(arg, "--detach-key"@),
        !is_long(arg, "--list"@),
        !is_long(arg, "--status"@),
        !is_long(arg, "--help"@),
        !is_long(arg, "--version"@),
    ensures
        asked_from(seq![arg] + rest, 0, given, env) == Err::<Requested, Seq<char>>(
            "unknown option "@ + vstd::utf8::decode_utf8(arg),
        ),
{
    flags();
    let args = seq![arg] + rest;
    assert(args[0] == arg);
    let flag = crate::cli::split_option(arg).0;
    if flag == crate::cli::bytes_of("--session"@) {
        split_is_long(arg, "--session"@);
    }
    if flag == crate::cli::bytes_of("--name"@) {
        split_is_long(arg, "--name"@);
    }
    if flag == crate::cli::bytes_of("--disconnect"@) {
        split_is_long(arg, "--disconnect"@);
    }
    if flag == crate::cli::bytes_of("--detach-key"@) {
        split_is_long(arg, "--detach-key"@);
    }
    if flag == crate::cli::bytes_of("--list"@) {
        split_is_long(arg, "--list"@);
    }
    if flag == crate::cli::bytes_of("--status"@) {
        split_is_long(arg, "--status"@);
    }
    if flag == crate::cli::bytes_of("--help"@) {
        split_is_long(arg, "--help"@);
    }
    if flag == crate::cli::bytes_of("--version"@) {
        split_is_long(arg, "--version"@);
    }
    split_short(arg);
}

/// What is split is a long option, with two minus signs in front.
proof fn split_short(arg: Seq<u8>)
    ensures
        crate::cli::split_option(arg).0 == arg || {
            &&& crate::cli::split_option(arg).0.len() >= 2
            &&& crate::cli::split_option(arg).0[0] == 45
            &&& crate::cli::split_option(arg).0[1] == 45
        },
{
    first_equals_holds(arg);
}

/// A value behind a `=` is refused for the list and the status, and makes no difference to
/// help and version.
pub proof fn values_that_are_not_taken(
    name: Seq<char>,
    value: Seq<u8>,
    rest: Seq<Seq<u8>>,
    given: Given,
    env: Option<Seq<char>>,
)
    requires
        name == "--list"@ || name == "--status"@ || name == "--help"@ || name == "--version"@,
        vstd::utf8::valid_utf8(value),
    ensures
        asked_from(
            seq![crate::cli::bytes_of(name) + seq![0x3du8] + value] + rest,
            0,
            given,
            env,
        ) == if name == "--list"@ || name == "--status"@ {
            Err(name + " takes no value"@)
        } else {
            Ok(
                Requested {
                    action: if name == "--help"@ {
                        Request::Help
                    } else {
                        Request::Version
                    },
                    detach_key: 0x1c,
                },
            )
        },
{
    flags();
    let flag = crate::cli::bytes_of(name);
    let sign = seq![0x3du8];
    let arg = flag + sign + value;
    let args = seq![arg] + rest;
    assert(args[0] == arg);
    vstd::utf8::encode_utf8_valid_utf8(seq!['=']);
    vstd::utf8::is_ascii_chars_encode_utf8(seq!['=']);
    assert(vstd::utf8::encode_utf8(seq!['=']) == sign);
    vstd::utf8::valid_utf8_concat(flag, sign);
    vstd::utf8::valid_utf8_concat(flag + sign, value);
    assert forall|j: int| 0 <= j < flag.len() implies arg[j] != '=' as u8 by {
        assert(flag.contains(flag[j]));
    }
    crate::cli::first_equals_found(arg, flag.len() as int);
    assert(arg.take(flag.len() as int) == flag);
    assert(arg[0] == flag[0] && arg[1] == flag[1]);
}

/// The key that detaches is the one given, else the one that the environment names, else
/// control-backslash; a key in the environment that is none is refused only where it counts.
pub proof fn the_detach_key_is_chosen(given: Given, command: Seq<Seq<u8>>, env: Option<Seq<char>>)
    ensures
        given.detach_key is None && env is Some && crate::cli::key_of(env->0) is None
            ==> crate::cli::settle(given, command, env) == Err::<Requested, Seq<char>>(
            "BOOP_DETACH_KEY: "@ + crate::cli::invalid_key(env->0),
        ),
        crate::cli::settle(given, command, env) matches Ok(requested) ==> {
            &&& given.detach_key is Some ==> requested.detach_key == given.detach_key->0
            &&& given.detach_key is None && env is Some ==> Some(requested.detach_key)
                == crate::cli::key_of(env->0)
            &&& given.detach_key is None && env is None ==> requested.detach_key == 28
        },
{
}

/// What is asked for, by what was given, where the key that detaches is a key: at most one of
/// the options that choose is accepted, a command only without one or with `--session`, and
/// then the one that was given says what to do, with the session and the command as they were
/// given.
pub proof fn what_is_asked_for(given: Given, command: Seq<Seq<u8>>, env: Option<Seq<char>>)
    requires
        given.detach_key is Some || env is None || crate::cli::key_of(env->0) is Some,
    ensures
        ({
            let (session, name, disconnect) = (given.session, given.name, given.disconnect);
            let (list, status) = (given.list, given.status);
            let two = (session is Some && (name is Some || disconnect is Some || list)) || (
            name is Some && (disconnect is Some || list)) || (disconnect is Some && list);
            let one = session is Some || name is Some || disconnect is Some || list;
            let asked = crate::cli::settle(given, command, env);
            &&& two ==> asked == Err::<Requested, Seq<char>>(
                "--session, --name, --disconnect and --list are exclusive"@,
            )
            &&& !two && status && one ==> asked == Err::<Requested, Seq<char>>(
                "--status excludes --session, --name, --disconnect and --list"@,
            )
            &&& !two && !(status && one) && command.len() > 0 && (name is Some || disconnect is Some
                || list || status) ==> asked == Err::<Requested, Seq<char>>(
                "a command is only accepted with --session or alone"@,
            )
            &&& !two && !(status && one) && !(command.len() > 0 && (name is Some
                || disconnect is Some || list || status)) ==> {
                &&& asked is Ok
                &&& name is Some ==> asked->Ok_0.action == (Request::Attach { session: name->0 })
                &&& disconnect is Some && disconnect->0 is Some ==> asked->Ok_0.action == (
                Request::Disconnect { session: disconnect->0->0 })
                &&& disconnect is Some && disconnect->0 is None ==> asked->Ok_0.action
                    == Request::DisconnectCurrent
                &&& list ==> asked->Ok_0.action == Request::List
                &&& status ==> asked->Ok_0.action == Request::Status
                &&& session is Some ==> asked->Ok_0.action == (Request::Open {
                    session: session->0,
                    command,
                })
                &&& !one && !status && command.len() == 0 ==> asked->Ok_0.action == Request::Auto
                &&& !one && !status && command.len() > 0 ==> asked->Ok_0.action == (Request::Open {
                    session: "boop"@,
                    command,
                })
            }
        }),
{
}

/// A command line without options asks for its command in the session `boop`, or for whatever
/// session there is, with Ctrl-\ as the key unless the environment names one.
pub proof fn what_is_not_given_has_a_default(command: Seq<Seq<u8>>)
    requires
        command.len() > 0 ==> !vstd::utf8::valid_utf8(command[0]) || command[0].len() < 2
            || command[0][0] != 45,
    ensures
        crate::cli::parsed(command, None) == Ok::<Requested, Seq<char>>(
            Requested {
                action: if command.len() == 0 {
                    Request::Auto
                } else {
                    Request::Open { session: "boop"@, command }
                },
                detach_key: 28,
            },
        ),
{
    assert(command.skip(0) == command);
}

} // verus!
