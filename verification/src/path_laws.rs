//! What holds of paths and of the files of sessions.

use vstd::prelude::*;
use vstd::utf8::*;

use crate::args;
use crate::args::{log_directory, log_file};
use crate::ids;
use crate::ids::SessionId;
use crate::path;
use crate::path::{UnixPath, DOT, SLASH};
use crate::shell::hushlogin_path;
use crate::sockets;
use crate::sockets::{
    default_socket_dir, discover_sessions, reported_path, socket_path_for_session,
};
use crate::spawn::{host_binary, host_candidate};
use crate::text;
use crate::text_laws;

verus! {

// ---------------------------------------------------------------------------
// Paths
// ---------------------------------------------------------------------------

/// A path taken below another: one slash stands between the two, whether or not
/// the first ends in one; nothing stands before a path that is taken below none;
/// and an absolute path stands for itself.
pub proof fn law_joining_puts_one_slash_between(base: Seq<u8>, part: Seq<u8>)
    ensures
        part.len() > 0 && part[0] == 0x2f ==> path::joined(base, part) == part,
        part.len() == 0 || part[0] != 0x2f ==> {
            &&& base.len() > 0 && base.last() != 0x2f ==> path::joined(base, part) == base
                + seq![0x2fu8] + part
            &&& path::joined(base + seq![0x2fu8], part) == base + seq![0x2fu8] + part
            &&& path::joined(seq![], part) == part
        },
{
    assert(Seq::<u8>::empty() + part =~= part);
    assert((base + seq![0x2fu8]).last() == 0x2f);
}

/// Whether bytes can be a file name: not empty, without a slash, and neither `.`
/// nor `..`.
pub open spec fn is_name(name: Seq<u8>) -> bool {
    &&& name.len() > 0
    &&& forall|i: int| 0 <= i < name.len() ==> #[trigger] name[i] != 0x2f
    &&& name != seq![0x2eu8]
    &&& name != seq![0x2eu8, 0x2e]
}

/// The file name of a path is what follows the last slash; slashes and `.` at the
/// end do not count; and a path that ends in `..`, or in nothing, has none.
pub proof fn law_file_names(dir: Seq<u8>, name: Seq<u8>)
    requires
        is_name(name),
    ensures
        path::file_name_of(dir + seq![0x2fu8] + name) == Some(name),
        path::file_name_of(name) == Some(name),
        path::file_name_of(dir + seq![0x2fu8]) == path::file_name_of(dir),
        path::file_name_of(dir + seq![0x2fu8, 0x2e]) == path::file_name_of(dir),
        path::file_name_of(dir + seq![0x2fu8, 0x2e, 0x2e]) is None,
        path::file_name_of(seq![0x2eu8, 0x2e]) is None,
        path::file_name_of(seq![0x2eu8]) is None,
        path::file_name_of(seq![]) is None,
{
    assert(name + Seq::<u8>::empty() =~= name);
    sockets::lemma_last_part(dir + seq![SLASH], name, seq![]);
    sockets::lemma_last_part(seq![], name, seq![]);
    assert(Seq::<u8>::empty() + name =~= name);
    let a = dir + seq![SLASH];
    assert(a.drop_last() =~= dir);
    assert(path::last_part(a, seq![]) == path::last_part(dir, seq![]));
    let b = dir + seq![SLASH, DOT];
    assert(b.drop_last() =~= a);
    assert(seq![b.last()] + Seq::<u8>::empty() =~= seq![DOT]);
    assert(path::last_part(b, seq![]) == path::last_part(a, seq![DOT]));
    assert(path::last_part(a, seq![DOT]) == path::last_part(dir, seq![]));
    let up = seq![DOT, DOT];
    assert(up + Seq::<u8>::empty() =~= up);
    assert(dir + seq![SLASH, DOT, DOT] =~= a + up);
    assert(up.len() == 2 && up != seq![DOT]);
    sockets::lemma_last_part(a, up, seq![]);
    assert(Seq::<u8>::empty() + up =~= up);
    sockets::lemma_last_part(seq![], up, seq![]);
    let here = seq![DOT];
    assert(here.drop_last() =~= Seq::<u8>::empty());
    assert(seq![here.last()] + Seq::<u8>::empty() =~= here);
    assert(path::last_part(here, seq![]) == path::last_part(seq![], here));
}

proof fn lemma_last_dot(head: Seq<u8>, tail: Seq<u8>)
    requires
        !tail.contains(0x2eu8),
    ensures
        path::last_dot(head + seq![0x2eu8] + tail) == head.len(),
        path::last_dot(tail) == -1,
    decreases tail.len(),
{
    let whole = head + seq![0x2eu8] + tail;
    if tail.len() > 0 {
        let shorter = tail.drop_last();
        assert(!shorter.contains(0x2eu8)) by {
            if shorter.contains(0x2eu8) {
                let i = choose|i: int| 0 <= i < shorter.len() && shorter[i] == 0x2e;
                assert(tail[i] == 0x2e);
            }
        }
        assert(tail[tail.len() - 1] != 0x2e);
        lemma_last_dot(head, shorter);
        assert(whole.drop_last() =~= head + seq![0x2eu8] + shorter);
    }
}

/// The last dot of a file name parts its stem from its extension, unless it comes
/// first; a name without such a dot is a stem without an extension. The two go by
/// the file name alone.
pub proof fn law_the_last_dot_parts_names(dir: Seq<u8>, stem: Seq<u8>, extension: Seq<u8>)
    requires
        !extension.contains(0x2eu8),
    ensures
        stem.len() > 0 && is_name(stem + seq![0x2eu8] + extension) ==> {
            let file = dir + seq![0x2fu8] + (stem + seq![0x2eu8] + extension);
            &&& path::file_stem_of(file) == Some(stem)
            &&& path::extension_of(file) == Some(extension)
        },
        is_name(extension) ==> {
            let file = dir + seq![0x2fu8] + extension;
            &&& path::file_stem_of(file) == Some(extension)
            &&& path::extension_of(file) is None
        },
        is_name(seq![0x2eu8] + extension) ==> {
            let file = dir + seq![0x2fu8] + (seq![0x2eu8] + extension);
            &&& path::file_stem_of(file) == Some(seq![0x2eu8] + extension)
            &&& path::extension_of(file) is None
        },
{
    let name = stem + seq![0x2eu8] + extension;
    lemma_last_dot(stem, extension);
    lemma_last_dot(seq![], extension);
    assert(Seq::<u8>::empty() + seq![0x2eu8] + extension =~= seq![0x2eu8] + extension);
    if stem.len() > 0 && is_name(name) {
        law_file_names(dir, name);
        assert(name.take(stem.len() as int) =~= stem);
        assert(name.skip(stem.len() as int + 1) =~= extension);
    }
    if is_name(extension) {
        law_file_names(dir, extension);
    }
    if is_name(seq![0x2eu8] + extension) {
        law_file_names(dir, seq![0x2eu8] + extension);
    }
}

/// A path has a stem exactly where it has a file name, and what precedes the
/// extension is the stem.
pub proof fn law_stems_and_extensions_make_names(p: Seq<u8>)
    ensures
        path::file_stem_of(p) is Some == path::file_name_of(p) is Some,
        path::extension_of(p) matches Some(extension) ==> path::file_name_of(p) == Some(
            path::file_stem_of(p)->0 + seq![0x2eu8] + extension,
        ),
        path::extension_of(p) is None ==> path::file_stem_of(p) == path::file_name_of(p),
{
    if let Some(name) = path::file_name_of(p) {
        lemma_dot_is_there(name);
        if path::last_dot(name) > 0 {
            let at = path::last_dot(name);
            assert(name.take(at) + seq![0x2eu8] + name.skip(at + 1) =~= name);
        }
    }
}

proof fn lemma_dot_is_there(name: Seq<u8>)
    ensures
        -1 <= path::last_dot(name) < name.len(),
        path::last_dot(name) >= 0 ==> name[path::last_dot(name)] == 0x2e,
    decreases name.len(),
{
    if name.len() > 0 && name.last() != 0x2e {
        lemma_dot_is_there(name.drop_last());
    }
}

// ---------------------------------------------------------------------------
// The files of sessions
// ---------------------------------------------------------------------------

proof fn lemma_relative(t: Seq<char>)
    requires
        t.len() > 0,
        t[0] != '/',
        '\0' <= t[0] <= '\u{7f}',
    ensures
        encode_utf8(t).len() > 0,
        encode_utf8(t)[0] != 0x2f,
{
    let c = seq![t[0]];
    let bytes = encode_utf8(t);
    let first = t[0];
    assert(c.len() == 1);
    assert forall|i| 0 <= i < c.len() implies '\0' <= #[trigger] c[i] <= '\u{7f}' by {
        assert(c[i] == first);
    }
    is_ascii_chars_encode_utf8(c);
    assert(c[0] as u8 == encode_utf8(c)[0]);
    assert(c.drop_first() =~= Seq::<char>::empty());
    assert(encode_utf8(c.drop_first()) =~= Seq::<u8>::empty());
    assert(encode_utf8(c) =~= encode_scalar(t[0] as u32));
    assert(bytes[0] == encode_scalar(t[0] as u32)[0]);
}

/// Sessions listen in the directory `pty-host` below the directory for temporary
/// files, each at its ID and `.sock`.
pub proof fn law_sockets_lie_in_one_directory(
    base: UnixPath,
    id: SessionId,
    dir: UnixPath,
    file: UnixPath,
)
    requires
        base@.len() > 0,
        base@.last() != 0x2f,
        call_ensures(default_socket_dir, (&base,), dir),
        call_ensures(socket_path_for_session, (&base, &id), file),
    ensures
        dir@ == base@ + seq![0x2fu8] + encode_utf8("pty-host"@),
        file@ == dir@ + seq![0x2fu8] + encode_utf8(ids::id_text(id.bits) + ".sock"@),
{
    reveal_strlit("pty-host");
    reveal_strlit(".sock");
    lemma_relative("pty-host"@);
    let name = ids::id_text(id.bits) + ".sock"@;
    ids::lemma_id_characters(id.bits);
    assert(is_ascii_chars(ids::id_text(id.bits)));
    assert(name[0] == ids::id_text(id.bits)[0]);
    lemma_relative(name);
    let bytes = encode_utf8("pty-host"@);
    assert(is_ascii_chars("pty-host"@));
    is_ascii_chars_encode_utf8("pty-host"@);
    assert("pty-host"@[7] as u8 == bytes[7]);
    assert(dir@.last() == bytes[7]);
}

/// Different sessions listen on different sockets.
pub proof fn law_sockets_are_distinct(base: Seq<u8>, a: u128, b: u128)
    requires
        sockets::socket_path(base, a) == sockets::socket_path(base, b),
    ensures
        a == b,
{
    sockets::law_a_socket_leads_to_its_session(base, a);
    sockets::law_a_socket_leads_to_its_session(base, b);
}

/// A file is taken for the socket of a session exactly where its name is an ID
/// and `.sock`.
pub proof fn law_only_sockets_are_sessions(file: Seq<u8>)
    ensures
        sockets::session_at(file) matches Some(bits) ==> exists|id: Seq<char>|
            {
                &&& #[trigger] ids::read_id(id) == Ok::<u128, Seq<char>>(bits)
                &&& path::file_name_of(file) == Some(encode_utf8(id + ".sock"@))
            },
        sockets::session_at(file) is None ==> forall|id: Seq<char>|
            path::file_name_of(file) == Some(#[trigger] encode_utf8(id + ".sock"@)) && id.len() > 0
                ==> ids::read_id(id) is Err,
{
    law_stems_and_extensions_make_names(file);
    if let Some(bits) = sockets::session_at(file) {
        let stem = path::file_stem_of(file)->0;
        let id = decode_utf8(stem);
        decode_utf8_encode_utf8(stem);
        lemma_with_sock(id);
        assert(ids::read_id(id) == Ok::<u128, Seq<char>>(bits));
        assert(path::file_name_of(file) == Some(encode_utf8(id + ".sock"@)));
    } else {
        assert forall|id: Seq<char>|
            path::file_name_of(file) == Some(#[trigger] encode_utf8(id + ".sock"@)) && id.len()
                > 0 implies ids::read_id(id) is Err by {
            lemma_with_sock(id);
            lemma_encoded_is_not_empty(id);
            let stem = encode_utf8(id);
            let extension = encode_utf8("sock"@);
            lemma_sock();
            lemma_last_dot(stem, extension);
            let name = stem + seq![0x2eu8] + extension;
            assert(name.take(stem.len() as int) =~= stem);
            assert(name.skip(stem.len() as int + 1) =~= extension);
            encode_utf8_valid_utf8(id);
            encode_utf8_decode_utf8(id);
            assert(sockets::socket_stem(file) == Some(id));
        }
    }
}

proof fn lemma_encoded_is_not_empty(t: Seq<char>)
    requires
        t.len() > 0,
    ensures
        encode_utf8(t).len() > 0,
{
    if encode_utf8(t).len() == 0 {
        encode_utf8_decode_utf8(t);
        assert(encode_utf8(t) =~= Seq::<u8>::empty());
        assert(decode_utf8(Seq::<u8>::empty()).len() == 0);
    }
}

proof fn lemma_sock()
    ensures
        encode_utf8("sock"@) == seq![0x73u8, 0x6f, 0x63, 0x6b],
        encode_utf8(".sock"@) == seq![0x2eu8] + encode_utf8("sock"@),
        !encode_utf8("sock"@).contains(0x2eu8),
{
    reveal_strlit("sock");
    reveal_strlit(".sock");
    let a = "sock"@;
    let b = ".sock"@;
    assert(is_ascii_chars(a) && is_ascii_chars(b));
    is_ascii_chars_encode_utf8(a);
    is_ascii_chars_encode_utf8(b);
    assert(a[0] as u8 == encode_utf8(a)[0] && a[1] as u8 == encode_utf8(a)[1]);
    assert(a[2] as u8 == encode_utf8(a)[2] && a[3] as u8 == encode_utf8(a)[3]);
    assert(b[0] as u8 == encode_utf8(b)[0] && b[1] as u8 == encode_utf8(b)[1]);
    assert(b[2] as u8 == encode_utf8(b)[2] && b[3] as u8 == encode_utf8(b)[3]);
    assert(b[4] as u8 == encode_utf8(b)[4]);
    assert(encode_utf8(a) =~= seq![0x73u8, 0x6f, 0x63, 0x6b]);
    assert(encode_utf8(b) =~= seq![0x2eu8] + encode_utf8(a));
}

proof fn lemma_with_sock(id: Seq<char>)
    ensures
        encode_utf8(id + ".sock"@) == encode_utf8(id) + seq![0x2eu8] + encode_utf8("sock"@),
{
    lemma_sock();
    lemma_encode_two(id, ".sock"@);
    assert(encode_utf8(id) + encode_utf8(".sock"@) =~= encode_utf8(id) + seq![0x2eu8]
        + encode_utf8("sock"@));
}

proof fn lemma_encode_two(a: Seq<char>, b: Seq<char>)
    ensures
        encode_utf8(a + b) == encode_utf8(a) + encode_utf8(b),
    decreases a.len(),
{
    if a.len() == 0 {
        assert(a + b =~= b);
        assert(encode_utf8(a) + encode_utf8(b) =~= encode_utf8(b));
    } else {
        assert((a + b).drop_first() =~= a.drop_first() + b);
        lemma_encode_two(a.drop_first(), b);
        assert(encode_scalar(a[0] as u32) + (encode_utf8(a.drop_first()) + encode_utf8(b))
            =~= encode_utf8(a) + encode_utf8(b));
    }
}

/// Discovery lists the sockets among files and nothing else: each entry is one of
/// the files with the session it leads to, and each file that leads to a session
/// is listed with it, in the order of the files.
pub proof fn law_discovery_lists_exactly_the_sockets(files: Seq<Seq<u8>>)
    ensures
        forall|k: int|
            0 <= k < sessions(files).len() ==> files.contains((#[trigger] sessions(files)[k]).1)
                && sockets::session_at(sessions(files)[k].1) == Some(sessions(files)[k].0),
        forall|i: int|
            0 <= i < files.len() && sockets::session_at(#[trigger] files[i]) is Some
                ==> sessions(files).contains((sockets::session_at(files[i])->0, files[i])),
    decreases files.len(),
{
    let all = sessions(files);
    if files.len() > 0 {
        let head = files.drop_last();
        let before = sessions(head);
        law_discovery_lists_exactly_the_sockets(head);
        assert forall|k: int| 0 <= k < all.len() implies files.contains((#[trigger] all[k]).1)
            && sockets::session_at(all[k].1) == Some(all[k].0) by {
            if k < before.len() {
                assert(all[k] == before[k]);
                let i = choose|i: int| 0 <= i < head.len() && head[i] == before[k].1;
                assert(files[i] == all[k].1);
            } else {
                assert(files[files.len() - 1] == all[k].1);
            }
        }
        assert forall|i: int|
            0 <= i < files.len() && sockets::session_at(
                #[trigger] files[i],
            ) is Some implies all.contains((sockets::session_at(files[i])->0, files[i])) by {
            let entry = (sockets::session_at(files[i])->0, files[i]);
            if i < head.len() {
                assert(head[i] == files[i]);
                let k = choose|k: int| 0 <= k < before.len() && before[k] == entry;
                assert(all[k] == entry);
            } else {
                assert(all[all.len() - 1] == entry);
            }
        }
    }
}

/// The sessions that discovery lists.
pub open spec fn sessions(files: Seq<Seq<u8>>) -> Seq<(u128, Seq<u8>)> {
    sockets::sessions_among(files)
}

/// Every socket among the files of a directory leads to its session.
pub proof fn law_discovery(
    files: &[UnixPath],
    found: Vec<(SessionId, UnixPath)>,
    base: Seq<u8>,
    id: SessionId,
)
    requires
        call_ensures(discover_sessions, (files,), found),
    ensures
        forall|k: int| #![trigger found@[k]]
            0 <= k < found@.len() ==> sockets::session_at(found@[k].1@) == Some(found@[k].0.bits)
                && sockets::paths(files@).contains(found@[k].1@),
        sockets::paths(files@).contains(sockets::socket_path(base, id.bits)) ==> exists|k: int|
            0 <= k < found@.len() && (#[trigger] found@[k]).0.bits == id.bits && found@[k].1@
                == sockets::socket_path(base, id.bits),
{
    let all = sockets::paths(files@);
    let listed = sessions(all);
    law_discovery_lists_exactly_the_sockets(all);
    assert forall|k: int| #![trigger found@[k]] 0 <= k < found@.len() implies sockets::session_at(
        found@[k].1@,
    ) == Some(found@[k].0.bits) && all.contains(found@[k].1@) by {
        assert(listed[k] == (found@[k].0.bits, found@[k].1@));
    }
    let file = sockets::socket_path(base, id.bits);
    if all.contains(file) {
        sockets::law_discovery_finds_every_session(base, id.bits, all);
        let k = choose|k: int| 0 <= k < listed.len() && listed[k] == (id.bits, file);
        assert(listed[k] == (found@[k].0.bits, found@[k].1@));
        assert(found@[k].0.bits == id.bits);
    }
}

/// Discovery goes through the files in order: what it lists for two lists of
/// files, one after the other, is what it lists for each.
pub proof fn law_discovery_keeps_the_order(a: Seq<Seq<u8>>, b: Seq<Seq<u8>>)
    ensures
        sessions(a + b) == sessions(a) + sessions(b),
    decreases b.len(),
{
    if b.len() == 0 {
        assert(a + b =~= a);
        assert(sessions(a) + sessions(b) =~= sessions(a));
    } else {
        assert((a + b).drop_last() =~= a + b.drop_last());
        law_discovery_keeps_the_order(a, b.drop_last());
        assert(sessions(a + b) =~= sessions(a) + sessions(b));
    }
}

/// A host's report of its socket is read back, whatever white space stands around
/// it, such as the line feed at its end.
pub proof fn law_reports_read_back(
    line: &str,
    lead: Seq<char>,
    p: Seq<char>,
    trail: Seq<char>,
    file: UnixPath,
)
    requires
        line@ == lead + p + trail,
        text_laws::blank(lead),
        text_laws::tight(p),
        text_laws::blank(trail),
        call_ensures(reported_path, (line,), file),
    ensures
        file@ == encode_utf8(p),
{
    text_laws::law_trimming_takes_white_ends(lead, p, trail);
}

/// The host program is looked for beside the program that starts it, and
/// otherwise on the search path.
pub proof fn law_where_the_host_program_is(
    dir: UnixPath,
    candidate: UnixPath,
    found: Option<UnixPath>,
    file: UnixPath,
)
    requires
        dir@.len() > 0,
        dir@.last() != 0x2f,
        call_ensures(host_candidate, (&dir,), candidate),
        call_ensures(host_binary, (found,), file),
    ensures
        candidate@ == dir@ + seq![0x2fu8] + encode_utf8("pty-host"@),
        found matches Some(f) ==> file@ == f@,
        found is None ==> file@ == encode_utf8("pty-host"@),
{
    reveal_strlit("pty-host");
    lemma_relative("pty-host"@);
}

/// A user's `.hushlogin` lies in their home directory, or in the root directory
/// where there is none.
pub proof fn law_where_hushlogin_is(home: Option<&str>, file: UnixPath)
    requires
        call_ensures(hushlogin_path, (home,), file),
    ensures
        home matches Some(h) ==> encode_utf8(h@).len() > 0 && encode_utf8(h@).last() != 0x2f
            ==> file@ == encode_utf8(h@) + seq![0x2fu8] + encode_utf8(".hushlogin"@),
        home is None ==> file@ == seq![0x2fu8] + encode_utf8(".hushlogin"@),
{
    reveal_strlit(".hushlogin");
    lemma_relative(".hushlogin"@);
    if home is None {
        reveal_strlit("/");
        let root = "/"@;
        assert(is_ascii_chars(root));
        is_ascii_chars_encode_utf8(root);
        assert(root[0] as u8 == encode_utf8(root)[0]);
        assert(encode_utf8(root) =~= seq![0x2fu8]);
    }
}

/// The log of a session lies below the directory for temporary files, under the
/// word after `--session`; a command line without one has no log of its own.
pub proof fn law_where_logs_are(
    base: UnixPath,
    words: &[String],
    dir: UnixPath,
    file: Option<UnixPath>,
    at: int,
)
    requires
        base@.len() > 0,
        base@.last() != 0x2f,
        call_ensures(log_directory, (&base,), dir),
        call_ensures(log_file, (&base, words), file),
    ensures
        dir@ == base@ + seq![0x2fu8] + encode_utf8("zed-pty"@) + seq![0x2fu8] + encode_utf8(
            "logs"@,
        ),
        0 <= at < words@.len() - 1 && words@[at]@ == "--session"@ && (forall|i: int|
            0 <= i < at ==> (#[trigger] words@[i])@ != "--session"@) && encode_utf8(
            words@[at + 1]@ + ".log"@,
        )[0] != 0x2f ==> (file matches Some(f) && f@ == dir@ + seq![0x2fu8] + encode_utf8(
            words@[at + 1]@ + ".log"@,
        )),
        (forall|i: int| 0 <= i < words@.len() - 1 ==> (#[trigger] words@[i])@ != "--session"@)
            ==> file is None,
{
    reveal_strlit("zed-pty");
    reveal_strlit("logs");
    reveal_strlit(".log");
    lemma_relative("zed-pty"@);
    lemma_relative("logs"@);
    assert(is_ascii_chars("zed-pty"@) && is_ascii_chars("logs"@));
    is_ascii_chars_encode_utf8("zed-pty"@);
    is_ascii_chars_encode_utf8("logs"@);
    assert("zed-pty"@[6] as u8 == encode_utf8("zed-pty"@)[6]);
    assert("logs"@[3] as u8 == encode_utf8("logs"@)[3]);
    let mid = base@ + seq![0x2fu8] + encode_utf8("zed-pty"@);
    assert(mid.last() == encode_utf8("zed-pty"@)[6]);
    assert(dir@.last() == encode_utf8("logs"@)[3]);
    let all = text::strings(words@);
    lemma_first_position(all, "--session"@);
    if 0 <= at < words@.len() - 1 && words@[at]@ == "--session"@ && (forall|i: int|
        0 <= i < at ==> (#[trigger] words@[i])@ != "--session"@) {
        assert(all[at] == words@[at]@);
        let first = args::position(all, "--session"@);
        assert(all[first] == words@[first]@);
        assert(first == at);
        assert(all[at + 1] == words@[at + 1]@);
    }
    if forall|i: int| 0 <= i < words@.len() - 1 ==> (#[trigger] words@[i])@ != "--session"@ {
        let first = args::position(all, "--session"@);
        if 0 <= first < all.len() - 1 {
            assert(all[first] == words@[first]@);
        }
    }
}

/// The position of a word is that of its first occurrence, and negative where it
/// does not occur.
pub proof fn lemma_first_position(ws: Seq<Seq<char>>, word: Seq<char>)
    ensures
        args::position(ws, word) < ws.len(),
        args::position(ws, word) >= 0 ==> ws[args::position(ws, word)] == word,
        forall|i: int|
            0 <= i < args::position(ws, word) ==> (#[trigger] ws[i]) != word,
        args::position(ws, word) < 0 ==> forall|i: int|
            0 <= i < ws.len() ==> (#[trigger] ws[i]) != word,
    decreases ws.len(),
{
    if ws.len() > 0 && ws[0] != word {
        let later = ws.skip(1);
        lemma_first_position(later, word);
        let at = args::position(ws, word);
        if at >= 0 {
            assert(ws[at] == later[at - 1]);
        }
        assert forall|i: int| 0 <= i < at implies (#[trigger] ws[i]) != word by {
            if i > 0 {
                assert(ws[i] == later[i - 1]);
            }
        }
        if at < 0 {
            assert forall|i: int| 0 <= i < ws.len() implies (#[trigger] ws[i]) != word by {
                if i > 0 {
                    assert(ws[i] == later[i - 1]);
                }
            }
        }
    }
}

} // verus!
