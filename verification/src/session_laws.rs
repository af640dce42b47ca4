//! What holds of where the sockets of sessions are, and of the list of sessions.

use vstd::prelude::*;

use crate::sessions::Entry;

verus! {

/// The sockets are in `boop` inside the runtime directory of the user, with one separator
/// between, or in a directory under `/tmp` that has the user's number, where there is no
/// runtime directory.
pub proof fn the_directory_of_the_sockets(runtime: Seq<u8>, user: u32)
    ensures
        runtime.len() > 0 && runtime.last() != 47 ==> crate::sessions::directory_of(
            Some(runtime),
            user,
        ) == runtime + seq![47u8, 98, 111, 111, 112],
        runtime.len() > 0 && runtime.last() == 47 ==> crate::sessions::directory_of(
            Some(runtime),
            user,
        ) == runtime + seq![98u8, 111, 111, 112],
        runtime.len() == 0 ==> crate::sessions::directory_of(Some(runtime), user)
            == crate::sessions::directory_of(None, user),
        crate::sessions::directory_of(None, user) == seq![
            47u8,
            116,
            109,
            112,
            47,
            98,
            111,
            111,
            112,
            45,
        ] + crate::text::digits(user as nat),
{
    reveal_strlit("boop");
    reveal_strlit("/tmp/boop-");
    vstd::utf8::is_ascii_chars_encode_utf8("boop"@);
    vstd::utf8::is_ascii_chars_encode_utf8("/tmp/boop-"@);
    let name = vstd::utf8::encode_utf8("boop"@);
    assert("boop"@[0] as u8 == name[0]);
    assert(name == seq![98u8, 111, 111, 112]) by {
        assert("boop"@[1] as u8 == name[1] && "boop"@[2] as u8 == name[2] && "boop"@[3] as u8
            == name[3]);
    }
    let base = vstd::utf8::encode_utf8("/tmp/boop-"@);
    assert(base == seq![47u8, 116, 109, 112, 47, 98, 111, 111, 112, 45]) by {
        assert forall|i: int| 0 <= i < 10 implies #[trigger] base[i] == "/tmp/boop-"@[i] as u8 by {}
    }
    assert(runtime + seq![47u8] + name == runtime + seq![47u8, 98, 111, 111, 112]);
}

/// A name inside a directory that does not end with a separator has one separator in front
/// of it; an absolute name stands for itself.
pub proof fn names_inside_a_directory(base: Seq<u8>, name: Seq<u8>)
    ensures
        name.len() > 0 && name[0] == 47 ==> crate::sessions::joined_path(base, name) == name,
        (name.len() == 0 || name[0] != 47) && base.len() > 0 && base.last() != 47
            ==> crate::sessions::joined_path(base, name) == base + seq![47u8] + name,
        (name.len() == 0 || name[0] != 47) && (base.len() == 0 || base.last() == 47)
            ==> crate::sessions::joined_path(base, name) == base + name,
{
}

/// A directory is used only if it is one, is the user's own, and has no bit set that gives
/// the group or others access.
pub proof fn private_directories(is_directory: bool, owner: u32, mode: u32, user: u32)
    ensures
        crate::sessions::is_private(is_directory, owner, mode, user) <==> is_directory && owner
            == user && mode & 0o070 == 0 && mode & 0o007 == 0,
{
    assert(mode % 64 == 0 <==> mode & 0o070 == 0 && mode & 0o007 == 0) by (bit_vector);
}

/// A file may be a socket exactly if its name is UTF-8 and the name of a session.
pub proof fn file_names_of_sessions(name: Seq<char>, bytes: Seq<u8>)
    ensures
        crate::sessions::names_session(vstd::utf8::encode_utf8(name)) <==> crate::cli::valid_name(
            name,
        ),
        !vstd::utf8::valid_utf8(bytes) ==> !crate::sessions::names_session(bytes),
{
    vstd::utf8::encode_utf8_valid_utf8(name);
    vstd::utf8::encode_utf8_decode_utf8(name);
}

/// Names are ordered by the first byte that differs, and what a name begins with comes before
/// it.
pub proof fn names_are_ordered_byte_by_byte(
    same: Seq<u8>,
    one: u8,
    other: u8,
    rest: Seq<u8>,
    others: Seq<u8>,
)
    ensures
        crate::sessions::at_most(same, same + rest),
        rest.len() > 0 ==> !crate::sessions::at_most(same + rest, same),
        one < other ==> crate::sessions::at_most(
            same + seq![one] + rest,
            same + seq![other] + others,
        ),
        one < other ==> !crate::sessions::at_most(
            same + seq![other] + others,
            same + seq![one] + rest,
        ),
    decreases same.len(),
{
    let small = same + seq![one] + rest;
    let large = same + seq![other] + others;
    if same.len() > 0 {
        let later = same.drop_first();
        names_are_ordered_byte_by_byte(later, one, other, rest, others);
        assert((same + rest).drop_first() == later + rest);
        assert(small.drop_first() == later + seq![one] + rest);
        assert(large.drop_first() == later + seq![other] + others);
        assert(small[0] == same[0] && large[0] == same[0]);
        assert((same + rest)[0] == same[0]);
    } else {
        assert(small[0] == one && large[0] == other);
    }
}

/// The list of sessions is ordered by the bytes of their names.
pub proof fn sorted_names(names: Seq<String>, i: int, j: int)
    requires
        crate::sessions::sorted(names),
        0 <= i < j < names.len(),
    ensures
        crate::sessions::at_most(
            vstd::utf8::encode_utf8(names[i]@),
            vstd::utf8::encode_utf8(names[j]@),
        ),
{
    assert(crate::sessions::name_at_most(names[i]@, names[j]@));
}

/// A file stands for a running session exactly if it is a socket with the name of a session
/// on which one answers, and then for the session of that name; what runs is put together
/// file by file.
pub proof fn running_sessions(entries: Seq<Entry>, entry: Entry)
    ensures
        crate::sessions::running(Seq::empty()) == Seq::<Seq<char>>::empty(),
        entry.is_socket && entry.answers && vstd::utf8::valid_utf8(entry.file_name@)
            && crate::cli::valid_name(vstd::utf8::decode_utf8(entry.file_name@))
            ==> crate::sessions::running(entries.push(entry)) == crate::sessions::running(
            entries,
        ).push(vstd::utf8::decode_utf8(entry.file_name@)),
        !entry.is_socket || !entry.answers || !vstd::utf8::valid_utf8(entry.file_name@)
            || !crate::cli::valid_name(vstd::utf8::decode_utf8(entry.file_name@))
            ==> crate::sessions::running(entries.push(entry)) == crate::sessions::running(entries),
{
    assert(entries.push(entry).drop_last() == entries);
}

} // verus!
