//! Where the sockets of sessions are, and which sessions there are.

use vstd::prelude::*;

use crate::cli::session_name;
use crate::sys::Failure;
use crate::text::{push_bytes, push_digits, utf8_text};

verus! {

/// The path of `name` inside the directory `base`.
pub open spec fn joined_path(base: Seq<u8>, name: Seq<u8>) -> Seq<u8> {
    if name.len() > 0 && name[0] == '/' as u8 {
        name
    } else if base.len() == 0 || base.last() == '/' as u8 {
        base + name
    } else {
        base + seq!['/' as u8] + name
    }
}

fn join(base: &[u8], name: &[u8]) -> (path: Vec<u8>)
    ensures
        path@ == joined_path(base@, name@),
{
    let mut path: Vec<u8> = Vec::new();
    if name.len() == 0 || name[0] != '/' as u8 {
        push_bytes(&mut path, base);
        if base.len() > 0 && base[base.len() - 1] != '/' as u8 {
            path.push('/' as u8);
        }
    }
    push_bytes(&mut path, name);
    path
}

/// The directory of the sockets: `boop` in the user's runtime directory, or a directory
/// of the user's own under `/tmp` where there is no such directory.
pub open spec fn directory_of(runtime: Option<Seq<u8>>, user: u32) -> Seq<u8> {
    match runtime {
        Some(runtime) if runtime.len() > 0 => joined_path(
            runtime,
            vstd::utf8::encode_utf8("boop"@),
        ),
        _ => vstd::utf8::encode_utf8("/tmp/boop-"@) + crate::text::digits(user as nat),
    }
}

/// The directory of the sockets, by the runtime directory that the environment names
/// and the user's number.
pub fn directory(runtime: Option<Vec<u8>>, user: u32) -> (path: Vec<u8>)
    ensures
        path@ == directory_of(
            match runtime {
                Some(runtime) => Some(runtime@),
                None => None,
            },
            user,
        ),
{
    if let Some(runtime) = runtime {
        if runtime.len() > 0 {
            return join(runtime.as_slice(), "boop".as_bytes());
        }
    }
    let mut path: Vec<u8> = Vec::new();
    push_bytes(&mut path, "/tmp/boop-".as_bytes());
    push_digits(&mut path, user);
    path
}

/// Whether a failure to create the directory leaves it usable.
pub fn created(failure: Failure) -> (usable: bool)
    ensures
        usable == (failure is AlreadyExists),
{
    match failure {
        Failure::AlreadyExists => true,
        _ => false,
    }
}

/// Whether a directory is the user's own and closed to everyone else: the six lowest
/// bits of its mode, which are for group and others, are clear.
pub open spec fn is_private(is_directory: bool, owner: u32, mode: u32, user: u32) -> bool {
    is_directory && owner == user && mode % 64 == 0
}

/// Lets a directory be used for sockets only if nobody else has access to it.
pub fn check_directory(
    shown: &str,
    is_directory: bool,
    owner: u32,
    mode: u32,
    user: u32,
) -> (result: Result<(), String>)
    ensures
        match result {
            Ok(()) => is_private(is_directory, owner, mode, user),
            Err(reason) => !is_private(is_directory, owner, mode, user) && reason@ == shown@
                + " must be a directory owned by the user with mode 0700"@,
        },
{
    assert(mode & 0o077 == mode % 64) by (bit_vector);
    if !is_directory || owner != user || mode & 0o077 != 0 {
        let mut reason = shown.to_owned();
        reason.append(" must be a directory owned by the user with mode 0700");
        Err(reason)
    } else {
        Ok(())
    }
}

/// The socket of a session in the directory of the sockets.
pub fn socket_path(directory: &[u8], name: &str) -> (path: Vec<u8>)
    ensures
        path@ == joined_path(directory@, vstd::utf8::encode_utf8(name@)),
{
    join(directory, name.as_bytes())
}

proof fn digits_have_no_separator(n: nat)
    ensures
        crate::text::digits(n).len() > 0,
        crate::text::digits(n).last() != '/' as u8,
{
}

/// Every session has a socket of its own, directly inside the directory of the sockets.
pub proof fn sockets_are_inside_directory(
    runtime: Option<Seq<u8>>,
    user: u32,
    name: Seq<char>,
    other: Seq<char>,
)
    requires
        crate::cli::valid_name(name),
        crate::cli::valid_name(other),
    ensures
        ({
            let directory = directory_of(runtime, user);
            let socket = joined_path(directory, vstd::utf8::encode_utf8(name));
            &&& socket == directory + seq!['/' as u8] + vstd::utf8::encode_utf8(name)
            &&& name != other ==> socket != joined_path(directory, vstd::utf8::encode_utf8(other))
        }),
{
    let directory = directory_of(runtime, user);
    let bytes = vstd::utf8::encode_utf8(name);
    let other_bytes = vstd::utf8::encode_utf8(other);
    vstd::utf8::is_ascii_chars_encode_utf8(name);
    vstd::utf8::is_ascii_chars_encode_utf8(other);
    assert(crate::cli::name_char(name[0]) && crate::cli::name_char(other[0]));
    digits_have_no_separator(user as nat);
    reveal_strlit("boop");
    vstd::utf8::is_ascii_chars_encode_utf8("boop"@);
    assert(directory.len() > 0 && directory.last() != '/' as u8);
    let socket = joined_path(directory, bytes);
    let other_socket = joined_path(directory, other_bytes);
    if socket == other_socket {
        assert(bytes == socket.skip(directory.len() as int + 1));
        assert(other_bytes == other_socket.skip(directory.len() as int + 1));
        vstd::utf8::encode_utf8_decode_utf8(name);
        vstd::utf8::encode_utf8_decode_utf8(other);
    }
}

/// What an attempt to connect to a session comes to.
#[derive(Clone, Copy, PartialEq, Eq, Debug, Structural)]
pub enum Connection {
    /// The session answers.
    Found,
    /// There is no such session.
    Absent,
    /// Nothing listens on the socket any more: remove it.
    Stale,
    /// The attempt failed.
    Failed,
}

/// What an attempt to connect to a session comes to.
pub fn connect(outcome: Result<(), Failure>) -> (connection: Connection)
    ensures
        connection == match outcome {
            Ok(()) => Connection::Found,
            Err(Failure::NotFound) => Connection::Absent,
            Err(Failure::ConnectionRefused) => Connection::Stale,
            Err(_) => Connection::Failed,
        },
{
    match outcome {
        Ok(()) => Connection::Found,
        Err(Failure::NotFound) => Connection::Absent,
        Err(Failure::ConnectionRefused) => Connection::Stale,
        Err(_) => Connection::Failed,
    }
}

/// What follows once a stale socket was to be removed: the session is absent, also where
/// someone else has removed the socket before.
pub fn removed(outcome: Result<(), Failure>) -> (connection: Connection)
    ensures
        connection == match outcome {
            Ok(()) | Err(Failure::NotFound) => Connection::Absent,
            Err(_) => Connection::Failed,
        },
{
    match outcome {
        Ok(()) => Connection::Absent,
        Err(Failure::NotFound) => Connection::Absent,
        Err(_) => Connection::Failed,
    }
}

/// Whether a file with this name may be the socket of a session.
pub open spec fn names_session(file_name: Seq<u8>) -> bool {
    vstd::utf8::valid_utf8(file_name) && crate::cli::valid_name(
        vstd::utf8::decode_utf8(file_name),
    )
}

/// The session whose socket a file may be, by its name.
pub fn candidate(file_name: &[u8]) -> (name: Option<String>)
    ensures
        name is Some <==> names_session(file_name@),
        name is Some ==> name->0@ == vstd::utf8::decode_utf8(file_name@),
{
    match utf8_text(file_name) {
        Some(text) => match session_name(text) {
            Ok(name) => Some(name),
            Err(_) => None,
        },
        None => None,
    }
}

/// Whether one piece of bytes stands before another, or is the same, in the order in
/// which texts are sorted: by the first byte that differs, and the shorter before what
/// it begins.
pub open spec fn at_most(a: Seq<u8>, b: Seq<u8>) -> bool
    decreases a.len(),
{
    if a.len() == 0 {
        true
    } else if b.len() == 0 {
        false
    } else {
        a[0] < b[0] || a[0] == b[0] && at_most(a.drop_first(), b.drop_first())
    }
}

/// Whether one name stands before another in a list, or is the same.
pub open spec fn name_at_most(a: Seq<char>, b: Seq<char>) -> bool {
    at_most(vstd::utf8::encode_utf8(a), vstd::utf8::encode_utf8(b))
}

/// The names as texts.
pub open spec fn name_views(names: Seq<String>) -> Seq<Seq<char>> {
    Seq::new(names.len(), |i: int| names[i]@)
}

pub open spec fn sorted(names: Seq<String>) -> bool {
    forall|i: int, j: int| 0 <= i <= j < names.len() ==> name_at_most(names[i]@, names[j]@)
}

pub proof fn at_most_reflexive(a: Seq<u8>)
    ensures
        at_most(a, a),
    decreases a.len(),
{
    if a.len() > 0 {
        at_most_reflexive(a.drop_first());
    }
}

pub proof fn at_most_transitive(a: Seq<u8>, b: Seq<u8>, c: Seq<u8>)
    requires
        at_most(a, b),
        at_most(b, c),
    ensures
        at_most(a, c),
    decreases a.len(),
{
    if a.len() > 0 && a[0] == b[0] && b[0] == c[0] {
        at_most_transitive(a.drop_first(), b.drop_first(), c.drop_first());
    }
}

pub proof fn at_most_total(a: Seq<u8>, b: Seq<u8>)
    ensures
        at_most(a, b) || at_most(b, a),
    decreases a.len(),
{
    if a.len() > 0 && b.len() > 0 {
        at_most_total(a.drop_first(), b.drop_first());
    }
}

pub proof fn at_most_antisymmetric(a: Seq<u8>, b: Seq<u8>)
    requires
        at_most(a, b),
        at_most(b, a),
    ensures
        a == b,
    decreases a.len(),
{
    if a.len() > 0 {
        at_most_antisymmetric(a.drop_first(), b.drop_first());
        assert(a == seq![a[0]] + a.drop_first());
        assert(b == seq![b[0]] + b.drop_first());
    } else {
        assert(b.len() == 0);
        assert(a == b);
    }
}

/// Compares two pieces of bytes.
fn is_at_most(a: &[u8], b: &[u8]) -> (result: bool)
    ensures
        result == at_most(a@, b@),
{
    let mut i: usize = 0;
    assert(a@.skip(0) == a@ && b@.skip(0) == b@);
    while i < a.len() && i < b.len()
        invariant
            i <= a.len(),
            i <= b.len(),
            at_most(a@, b@) == at_most(a@.skip(i as int), b@.skip(i as int)),
        decreases a.len() - i,
    {
        assert(a@.skip(i as int).drop_first() == a@.skip(i + 1));
        assert(b@.skip(i as int).drop_first() == b@.skip(i + 1));
        if a[i] != b[i] {
            return a[i] < b[i];
        }
        i += 1;
    }
    i == a.len()
}

/// Puts a name where it belongs among sorted names.
fn insert_sorted(names: &mut Vec<String>, name: String)
    requires
        sorted(old(names)@),
    ensures
        sorted(final(names)@),
        name_views(final(names)@).to_multiset() == name_views(old(names)@).to_multiset().insert(
            name@,
        ),
{
    let mut at: usize = 0;
    while at < names.len() && is_at_most(names[at].as_str().as_bytes(), name.as_str().as_bytes())
        invariant
            at <= names.len(),
            forall|j: int| 0 <= j < at ==> name_at_most(#[trigger] names@[j]@, name@),
        decreases names.len() - at,
    {
        at += 1;
    }
    names.insert(at, name);
    proof {
        let before = old(names)@;
        assert(name_views(names@) == name_views(before).insert(at as int, name@));
        vstd::seq_lib::to_multiset_insert(name_views(before), at as int, name@);
        assert forall|i: int, j: int| 0 <= i <= j < names@.len() implies name_at_most(
            names@[i]@,
            names@[j]@,
        ) by {
            let bytes = vstd::utf8::encode_utf8(name@);
            if i == j {
                at_most_reflexive(vstd::utf8::encode_utf8(names@[i]@));
            } else if i < at && j == at {
                assert(names@[i] == before[i]);
            } else if i == at {
                let next = vstd::utf8::encode_utf8(before[at as int]@);
                at_most_total(bytes, next);
                assert(names@[j] == before[j - 1]);
                assert(name_at_most(before[at as int]@, before[j - 1]@));
                at_most_transitive(bytes, next, vstd::utf8::encode_utf8(before[j - 1]@));
            } else {
                let i0 = if i < at { i } else { i - 1 };
                let j0 = if j < at { j } else { j - 1 };
                assert(names@[i] == before[i0]);
                assert(names@[j] == before[j0]);
            }
        }
    }
}

/// A file in the directory of the sockets.
#[derive(Debug, PartialEq, Eq)]
pub struct Entry {
    pub file_name: Vec<u8>,
    pub is_socket: bool,
    /// Whether a session answers on it.
    pub answers: bool,
}

impl Entry {
    /// Whether the file stands for a session that runs.
    pub open spec fn runs(self) -> bool {
        names_session(self.file_name@) && self.is_socket && self.answers
    }
}

/// The sessions that run, in the order of the files.
pub open spec fn running(entries: Seq<Entry>) -> Seq<Seq<char>>
    decreases entries.len(),
{
    if entries.len() == 0 {
        Seq::empty()
    } else {
        let earlier = running(entries.drop_last());
        if entries.last().runs() {
            earlier.push(vstd::utf8::decode_utf8(entries.last().file_name@))
        } else {
            earlier
        }
    }
}

/// The list of the sessions that run, in order.
pub fn list(entries: &Vec<Entry>) -> (names: Vec<String>)
    ensures
        sorted(names@),
        name_views(names@).to_multiset() == running(entries@).to_multiset(),
{
    let mut names: Vec<String> = Vec::new();
    assert(name_views(names@) == Seq::<Seq<char>>::empty());
    let mut i: usize = 0;
    while i < entries.len()
        invariant
            i <= entries.len(),
            sorted(names@),
            name_views(names@).to_multiset() == running(entries@.take(i as int)).to_multiset(),
        decreases entries.len() - i,
    {
        let entry = &entries[i];
        let ghost before = running(entries@.take(i as int));
        assert(entries@.take(i + 1).drop_last() == entries@.take(i as int));
        if entry.is_socket && entry.answers {
            if let Some(name) = candidate(entry.file_name.as_slice()) {
                proof {
                    vstd::seq_lib::to_multiset_build(before, name@);
                }
                insert_sorted(&mut names, name);
            }
        }
        i += 1;
    }
    assert(entries@.take(i as int) == entries@);
    names
}

/// There is only one way to list given sessions.
pub proof fn list_is_unique(names: Seq<String>, others: Seq<String>)
    requires
        sorted(names),
        sorted(others),
        name_views(names).to_multiset() == name_views(others).to_multiset(),
    ensures
        name_views(names) == name_views(others),
{
    let order = |a: Seq<char>, b: Seq<char>| name_at_most(a, b);
    assert forall|a: Seq<char>| #[trigger] order(a, a) by {
        at_most_reflexive(vstd::utf8::encode_utf8(a));
    }
    assert forall|a: Seq<char>, b: Seq<char>| #[trigger] order(a, b) && #[trigger] order(
        b,
        a,
    ) implies a == b by {
        at_most_antisymmetric(vstd::utf8::encode_utf8(a), vstd::utf8::encode_utf8(b));
        vstd::utf8::encode_utf8_decode_utf8(a);
        vstd::utf8::encode_utf8_decode_utf8(b);
    }
    assert forall|a: Seq<char>, b: Seq<char>, c: Seq<char>| #[trigger] order(a, b)
        && #[trigger] order(b, c) implies order(a, c) by {
        at_most_transitive(
            vstd::utf8::encode_utf8(a),
            vstd::utf8::encode_utf8(b),
            vstd::utf8::encode_utf8(c),
        );
    }
    assert forall|a: Seq<char>, b: Seq<char>| #[trigger] order(a, b) || order(b, a) by {
        at_most_total(vstd::utf8::encode_utf8(a), vstd::utf8::encode_utf8(b));
    }
    assert(vstd::relations::total_ordering(order));
    vstd::seq_lib::lemma_sorted_unique(name_views(names), name_views(others), order);
}

} // verus!
