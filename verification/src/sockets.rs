//! Where sessions listen, and which sessions there are.

use vstd::prelude::*;
use vstd::slice::*;
use vstd::string::*;
use vstd::utf8::*;

use crate::ids;
use crate::ids::SessionId;
use crate::path;
use crate::path::{UnixPath, DOT, SLASH};
use crate::text::{chars_of, string_of, text_from_utf8, trimmed};
use crate::text;

verus! {

/// The directory of session sockets below a directory for temporary files.
pub open spec fn socket_dir(base: Seq<u8>) -> Seq<u8> {
    path::joined(base, encode_utf8("pty-host"@))
}

/// The file name of the socket of a session.
pub open spec fn socket_name(bits: u128) -> Seq<u8> {
    encode_utf8(ids::id_text(bits) + ".sock"@)
}

/// The path of the socket of a session.
pub open spec fn socket_path(base: Seq<u8>, bits: u128) -> Seq<u8> {
    path::joined(socket_dir(base), socket_name(bits))
}

/// The file name of a socket, without its extension.
pub open spec fn socket_stem(file: Seq<u8>) -> Option<Seq<char>> {
    if path::extension_of(file) == Some(encode_utf8("sock"@)) {
        match path::file_stem_of(file) {
            Some(stem) => if valid_utf8(stem) {
                Some(decode_utf8(stem))
            } else {
                None
            },
            None => None,
        }
    } else {
        None
    }
}

/// The session whose socket a file is by its name.
pub open spec fn session_at(file: Seq<u8>) -> Option<u128> {
    match socket_stem(file) {
        Some(stem) => match ids::stated_uuid(stem) {
            Some(bits) => Some(bits as u128),
            None => None,
        },
        None => None,
    }
}

/// The sessions whose sockets are among files, with the files, in order.
pub open spec fn sessions_among(files: Seq<Seq<u8>>) -> Seq<(u128, Seq<u8>)>
    decreases files.len(),
{
    if files.len() == 0 {
        seq![]
    } else {
        let earlier = sessions_among(files.drop_last());
        match session_at(files.last()) {
            Some(bits) => earlier.push((bits, files.last())),
            None => earlier,
        }
    }
}

/// The default directory for session sockets, below the directory for temporary
/// files.
pub fn default_socket_dir(base: &UnixPath) -> (dir: UnixPath)
    ensures
        dir@ == socket_dir(base@),
{
    base.join("pty-host".as_bytes())
}

/// The socket path for a session ID, below the directory for temporary files.
pub fn socket_path_for_session(base: &UnixPath, session_id: &SessionId) -> (file: UnixPath)
    ensures
        file@ == socket_path(base@, session_id.bits),
{
    let mut name: String = session_id.text();
    name.append(".sock");
    default_socket_dir(base).join(name.as_str().as_bytes())
}

fn same_bytes(a: &[u8], b: &[u8]) -> (same: bool)
    ensures
        same == (a@ == b@),
{
    if a.len() != b.len() {
        return false;
    }
    let mut i: usize = 0;
    while i < a.len()
        invariant
            i <= a@.len(),
            a@.len() == b@.len(),
            forall|j: int| 0 <= j < i ==> a@[j] == b@[j],
        decreases a@.len() - i,
    {
        if a[i] != b[i] {
            return false;
        }
        i = i + 1;
    }
    assert(a@ =~= b@);
    true
}

/// The file name of a socket, without its extension.
pub fn stem_of_socket(file: &UnixPath) -> (stem: Option<String>)
    ensures
        match stem {
            Some(s) => socket_stem(file@) == Some(s@),
            None => socket_stem(file@) is None,
        },
{
    match file.extension() {
        Some(extension) => {
            if !same_bytes(extension, "sock".as_bytes()) {
                return None;
            }
        },
        None => return None,
    }
    match file.file_stem() {
        Some(stem) => text_from_utf8(slice_to_vec(stem)),
        None => None,
    }
}

/// The paths of several files.
pub open spec fn paths(files: Seq<UnixPath>) -> Seq<Seq<u8>> {
    Seq::new(files.len(), |i: int| files[i]@)
}

/// The sessions found and their sockets.
pub open spec fn found(sessions: Seq<(SessionId, UnixPath)>) -> Seq<(u128, Seq<u8>)> {
    Seq::new(sessions.len(), |i: int| (sessions[i].0.bits, sessions[i].1@))
}

/// Finds the sessions whose sockets are among the files of the socket
/// directory.
pub fn discover_sessions(files: &[UnixPath]) -> (sessions: Vec<(SessionId, UnixPath)>)
    ensures
        found(sessions@) == sessions_among(paths(files@)),
{
    let mut sessions: Vec<(SessionId, UnixPath)> = Vec::new();
    let ghost all = paths(files@);
    let mut i: usize = 0;
    assert(all.take(0) =~= Seq::<Seq<u8>>::empty());
    assert(found(sessions@) =~= Seq::<(u128, Seq<u8>)>::empty());
    while i < files.len()
        invariant
            i <= files@.len(),
            all == paths(files@),
            found(sessions@) == sessions_among(all.take(i as int)),
        decreases files@.len() - i,
    {
        let file: &UnixPath = &files[i];
        let ghost before = sessions@;
        assert(all.take(i + 1).drop_last() =~= all.take(i as int));
        assert(all.take(i + 1).last() == file@);
        if let Some(stem) = stem_of_socket(file) {
            if let Ok(id) = SessionId::parse(stem.as_str()) {
                sessions.push((id, file.copy()));
                assert(found(sessions@) =~= found(before).push((id.bits, file@)));
            }
        }
        i = i + 1;
    }
    assert(all.take(i as int) =~= all);
    sessions
}

/// The socket path that a host reports in a line of its output.
pub fn reported_path(line: &str) -> (file: UnixPath)
    ensures
        file@ == encode_utf8(text::trim(line@)),
{
    let cs: Vec<char> = chars_of(line);
    let t: String = string_of(trimmed(cs.as_slice()));
    UnixPath::from_text(t.as_str())
}

// ---------------------------------------------------------------------------
// A session is found by its own socket
// ---------------------------------------------------------------------------

proof fn lemma_socket_name(bits: u128)
    ensures
        ({
            let name = socket_name(bits);
            let t = ids::id_text(bits);
            &&& name.len() == 41
            &&& path::last_dot(name) == 36
            &&& name.take(36) == encode_utf8(t)
            &&& name.skip(37) == encode_utf8("sock"@)
            &&& forall|i: int| 0 <= i < name.len() ==> name[i] != SLASH
        }),
{
    let t = ids::id_text(bits);
    let whole = t + ".sock"@;
    let name = socket_name(bits);
    reveal_strlit(".sock");
    reveal_strlit("sock");
    ids::lemma_id_characters(bits);
    assert(is_ascii_chars(t));
    assert(is_ascii_chars(whole));
    assert(is_ascii_chars("sock"@));
    is_ascii_chars_encode_utf8(whole);
    is_ascii_chars_encode_utf8(t);
    is_ascii_chars_encode_utf8("sock"@);
    assert forall|i: int| 0 <= i < name.len() implies name[i] != SLASH by {
        assert(whole[i] as u8 == name[i]);
        if i < 36 {
            assert(whole[i] == t[i]);
        }
    }
    assert(name.take(36) =~= encode_utf8(t)) by {
        assert forall|i: int| 0 <= i < 36 implies name.take(36)[i] == encode_utf8(t)[i] by {
            assert(whole[i] == t[i]);
            assert(t[i] as u8 == encode_utf8(t)[i]);
            assert(whole[i] as u8 == name[i]);
        }
    }
    assert(name.skip(37) =~= encode_utf8("sock"@)) by {
        assert forall|i: int| 0 <= i < 4 implies name.skip(37)[i] == encode_utf8("sock"@)[i] by {
            assert(whole[37 + i] == "sock"@[i]);
            assert("sock"@[i] as u8 == encode_utf8("sock"@)[i]);
            assert(whole[37 + i] as u8 == name[37 + i]);
        }
    }
    assert(whole[36] as u8 == name[36] && name[36] == DOT);
    assert(whole[37] as u8 == name[37]);
    assert(whole[38] as u8 == name[38]);
    assert(whole[39] as u8 == name[39]);
    assert(whole[40] as u8 == name[40]);
    assert(name.drop_last()[39] == name[39]);
    assert(name.drop_last().drop_last()[38] == name[38]);
    assert(name.drop_last().drop_last().drop_last()[37] == name[37]);
    assert(name.drop_last().drop_last().drop_last().drop_last()[36] == name[36]);
    reveal_with_fuel(path::last_dot, 6);
}

pub proof fn lemma_last_part(dir: Seq<u8>, name: Seq<u8>, end: Seq<u8>)
    requires
        dir.len() == 0 || dir.last() == SLASH,
        forall|i: int| 0 <= i < name.len() ==> name[i] != SLASH,
        path::names(name + end),
    ensures
        path::last_part(dir + name, end) == Some(name + end),
    decreases name.len(),
{
    if name.len() == 0 {
        assert(dir + name =~= dir);
        assert(name + end =~= end);
    } else {
        let head = name.drop_last();
        let p = dir + name;
        assert(p.last() == name.last());
        assert(p.drop_last() =~= dir + head);
        let more = seq![name.last()] + end;
        assert(head + more =~= name + end);
        lemma_last_part(dir, head, more);
    }
}

/// A session is found by its own socket: the path that is made for an ID leads
/// back to that ID.
pub proof fn law_a_socket_leads_to_its_session(base: Seq<u8>, bits: u128)
    ensures
        session_at(socket_path(base, bits)) == Some(bits),
        path::file_name_of(socket_path(base, bits)) == Some(socket_name(bits)),
{
    let name = socket_name(bits);
    let dir = socket_dir(base);
    let t = ids::id_text(bits);
    lemma_socket_name(bits);
    let prefix = if dir.len() == 0 || dir.last() == SLASH {
        dir
    } else {
        dir + seq![SLASH]
    };
    assert(socket_path(base, bits) =~= prefix + name);
    assert(name + Seq::<u8>::empty() =~= name);
    lemma_last_part(prefix, name, seq![]);
    encode_utf8_valid_utf8(t);
    encode_utf8_decode_utf8(t);
    ids::law_id_text_reads_back(bits);
}

/// Every session whose socket lies in the socket directory is found, with its
/// socket.
pub proof fn law_discovery_finds_every_session(base: Seq<u8>, bits: u128, files: Seq<Seq<u8>>)
    requires
        files.contains(socket_path(base, bits)),
    ensures
        sessions_among(files).contains((bits, socket_path(base, bits))),
    decreases files.len(),
{
    let file = socket_path(base, bits);
    let last = files.last();
    let earlier = sessions_among(files.drop_last());
    law_a_socket_leads_to_its_session(base, bits);
    if last == file {
        assert(sessions_among(files).last() == (bits, file));
        assert(sessions_among(files)[sessions_among(files).len() - 1] == (bits, file));
    } else {
        let i = choose|i: int| 0 <= i < files.len() && files[i] == file;
        assert(files.drop_last()[i] == file);
        law_discovery_finds_every_session(base, bits, files.drop_last());
        let k = choose|k: int| 0 <= k < earlier.len() && earlier[k] == (bits, file);
        assert(sessions_among(files)[k] == (bits, file));
    }
}

} // verus!
