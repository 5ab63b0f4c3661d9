//! What the viewer shows of a node: a short label, the lines of a tooltip,
//! paths in a tidy form, and a number that places a node by its identifier.

use vstd::prelude::*;
use std::collections::hash_map::DefaultHasher;
use std::hash::{Hash, Hasher};
use crate::text::{
    chars_of, decimal, join_texts, joined, parts_of, push_decimal, push_signed_decimal, push_str,
    signed_decimal, split_at, split_chars, string_of, texts_of,
};
use crate::wire::{FileKind, Node};

verus! {

/// The hash that the standard library's default hasher gives a text.
pub uninterp spec fn default_hash_of(s: Seq<char>) -> u64;

/// The hash that the standard library's default hasher gives a text.
///
/// Wraps `DefaultHasher::new`, `Hash::hash` for `str` and `Hasher::finish`.
/// Every hasher made by `new` starts from the same keys, so the result
/// depends on the text alone; the algorithm belongs to the standard library
/// and may change between its releases.
#[verifier::external_body]
fn default_hash(s: &str) -> (h: u64)
    ensures
        h == default_hash_of(s@),
{
    let mut hasher = DefaultHasher::new();
    s.hash(&mut hasher);
    hasher.finish()
}

/// The low 32 bits of the default hash of a text.
pub fn stable_u32(s: &str) -> (r: u32)
    ensures
        r == default_hash_of(s@) & 0xFFFF_FFFF,
{
    let h = default_hash(s);
    let low = h & 0xFFFF_FFFF;
    assert(low <= 0xFFFF_FFFF) by (bit_vector)
        requires
            low == h & 0xFFFF_FFFF,
    ;
    low as u32
}

/// The parts of a path that count, in order: an empty part and `.` are
/// passed over, and `..` takes back the part before it, if there is one.
pub open spec fn resolve_parts(parts: Seq<Seq<char>>) -> Seq<Seq<char>>
    decreases parts.len(),
{
    if parts.len() == 0 {
        Seq::<Seq<char>>::empty()
    } else {
        resolve_step(resolve_parts(parts.drop_last()), parts.last())
    }
}

/// The parts that count after one more part of the path.
pub open spec fn resolve_step(done: Seq<Seq<char>>, part: Seq<char>) -> Seq<Seq<char>> {
    if part.len() == 0 || part == seq!['.'] {
        done
    } else if part == seq!['.', '.'] {
        if done.len() > 0 {
            done.drop_last()
        } else {
            done
        }
    } else {
        done.push(part)
    }
}

/// A path in its tidy form: a slash, then the parts that count with a
/// slash between each two.
pub open spec fn display_path(p: Seq<char>) -> Seq<char> {
    seq!['/'] + joined(resolve_parts(split_at(p, '/')), seq!['/'])
}

fn resolve_one(done: &mut Vec<Vec<char>>, part: &Vec<char>)
    ensures
        parts_of(final(done)@) == resolve_step(parts_of(old(done)@), part@),
{
    let is_dot = part.len() == 1 && part[0] == '.';
    let is_dots = part.len() == 2 && part[0] == '.' && part[1] == '.';
    proof {
        if is_dot {
            assert(part@ =~= seq!['.']);
        }
        if is_dots {
            assert(part@ =~= seq!['.', '.']);
        }
        if part@ == seq!['.'] {
            assert(seq!['.'].len() == 1 && seq!['.'][0] == '.');
        }
        if part@ == seq!['.', '.'] {
            assert(seq!['.', '.'].len() == 2 && seq!['.', '.'][0] == '.' && seq!['.', '.'][1] == '.');
        }
    }
    if part.len() == 0 || is_dot {
    } else if is_dots {
        if done.len() > 0 {
            let _ = done.pop();
            assert(parts_of(done@) =~= parts_of(old(done)@).drop_last());
        }
    } else {
        done.push(part.clone());
        assert(parts_of(done@) =~= parts_of(old(done)@).push(part@));
    }
}

/// A path in its tidy form, for display: empty parts and `.` are left out,
/// `..` steps back, and the result starts with a slash.
pub fn normalize_display_path(p: &str) -> (out: String)
    ensures
        out@ == display_path(p@),
{
    let chars = chars_of(p);
    let raw = split_chars(&chars, '/');
    let mut done: Vec<Vec<char>> = Vec::new();
    let mut i: usize = 0;
    proof {
        assert(parts_of(raw@).take(0) =~= Seq::<Seq<char>>::empty());
        assert(parts_of(done@) =~= Seq::<Seq<char>>::empty());
    }
    while i < raw.len()
        invariant
            i <= raw.len(),
            parts_of(done@) == resolve_parts(parts_of(raw@).take(i as int)),
        decreases raw.len() - i,
    {
        proof {
            assert(parts_of(raw@).take(i + 1).drop_last() =~= parts_of(raw@).take(i as int));
            assert(parts_of(raw@).take(i + 1).last() == raw@[i as int]@);
        }
        resolve_one(&mut done, &raw[i]);
        i += 1;
    }
    proof {
        assert(parts_of(raw@).take(raw.len() as int) =~= parts_of(raw@));
    }
    let mut names: Vec<String> = Vec::new();
    let mut j: usize = 0;
    while j < done.len()
        invariant
            j <= done.len(),
            names.len() == j,
            forall|k: int| 0 <= k < j ==> (#[trigger] names@[k])@ == done@[k]@,
        decreases done.len() - j,
    {
        names.push(string_of(&done[j]));
        j += 1;
    }
    assert(texts_of(names@) =~= parts_of(done@));
    let body = join_texts(&names, "/");
    let mut out: Vec<char> = Vec::new();
    out.push('/');
    push_str(&mut out, body.as_str());
    proof {
        reveal_strlit("/");
        assert("/"@ =~= seq!['/']);
        assert(out@ =~= seq!['/'] + body@);
    }
    string_of(&out)
}

/// The name of a file kind.
pub open spec fn file_kind_name(kind: FileKind) -> Seq<char> {
    match kind {
        FileKind::Regular => "Regular"@,
        FileKind::Dir => "Dir"@,
        FileKind::Socket => "Socket"@,
        FileKind::Pipe => "Pipe"@,
        FileKind::Device => "Device"@,
        FileKind::Unknown => "Unknown"@,
    }
}

/// The short label of a node: the command line of a process, or the tidy
/// path of its executable if it has none; the tidy path of a file; the
/// name of a user.
pub open spec fn short_label(node: Node) -> Seq<char> {
    match node {
        Node::Process { cmdline, exe, .. } => if cmdline@.len() > 0 {
            cmdline@
        } else {
            display_path(exe@)
        },
        Node::File { path, .. } => display_path(path@),
        Node::User { name, .. } => name@,
    }
}

/// The lines that describe a node in full.
pub open spec fn long_label(node: Node) -> Seq<Seq<char>> {
    match node {
        Node::Process { pid, ppid, exe, cmdline, uid } => seq![
            "kind: process"@,
            "pid: "@ + signed_decimal(pid as int) + " ppid: "@ + signed_decimal(ppid as int)
                + " uid: "@ + decimal(uid as nat),
            "exe: "@ + display_path(exe@),
            "cmd: "@ + cmdline@,
        ],
        Node::File { path, inode, kind } => seq![
            "kind: file"@,
            "path: "@ + display_path(path@),
            "inode: "@ + decimal(inode as nat),
            "filekind: "@ + file_kind_name(kind),
        ],
        Node::User { uid, name } => seq![
            "kind: user"@,
            "uid: "@ + decimal(uid as nat) + " name: "@ + name@,
        ],
    }
}

/// The texts of a list of lines.
pub open spec fn lines_of(lines: Seq<String>) -> Seq<Seq<char>> {
    texts_of(lines)
}

/// The short label of a node.
pub fn node_label_short(node: &Node) -> (label: String)
    ensures
        label@ == short_label(*node),
{
    match node {
        Node::Process { cmdline, exe, .. } => {
            if cmdline.as_str().unicode_len() > 0 {
                cmdline.clone()
            } else {
                normalize_display_path(exe.as_str())
            }
        },
        Node::File { path, .. } => normalize_display_path(path.as_str()),
        Node::User { name, .. } => name.clone(),
    }
}

fn kind_text(kind: FileKind) -> (name: &'static str)
    ensures
        name@ == file_kind_name(kind),
{
    match kind {
        FileKind::Regular => "Regular",
        FileKind::Dir => "Dir",
        FileKind::Socket => "Socket",
        FileKind::Pipe => "Pipe",
        FileKind::Device => "Device",
        FileKind::Unknown => "Unknown",
    }
}

/// The lines that describe a node in full.
pub fn node_label_long(node: &Node) -> (lines: Vec<String>)
    ensures
        lines_of(lines@) == long_label(*node),
{
    let mut lines: Vec<String> = Vec::new();
    match node {
        Node::Process { pid, ppid, exe, cmdline, uid } => {
            lines.push(String::from_str("kind: process"));
            let mut l1: Vec<char> = Vec::new();
            push_str(&mut l1, "pid: ");
            push_signed_decimal(&mut l1, *pid as i64);
            push_str(&mut l1, " ppid: ");
            push_signed_decimal(&mut l1, *ppid as i64);
            push_str(&mut l1, " uid: ");
            push_decimal(&mut l1, *uid as u64);
            lines.push(string_of(&l1));
            let mut l2: Vec<char> = Vec::new();
            push_str(&mut l2, "exe: ");
            let tidy = normalize_display_path(exe.as_str());
            push_str(&mut l2, tidy.as_str());
            lines.push(string_of(&l2));
            let mut l3: Vec<char> = Vec::new();
            push_str(&mut l3, "cmd: ");
            push_str(&mut l3, cmdline.as_str());
            lines.push(string_of(&l3));
        },
        Node::File { path, inode, kind } => {
            lines.push(String::from_str("kind: file"));
            let mut l1: Vec<char> = Vec::new();
            push_str(&mut l1, "path: ");
            let tidy = normalize_display_path(path.as_str());
            push_str(&mut l1, tidy.as_str());
            lines.push(string_of(&l1));
            let mut l2: Vec<char> = Vec::new();
            push_str(&mut l2, "inode: ");
            push_decimal(&mut l2, *inode);
            lines.push(string_of(&l2));
            let mut l3: Vec<char> = Vec::new();
            push_str(&mut l3, "filekind: ");
            push_str(&mut l3, kind_text(*kind));
            lines.push(string_of(&l3));
        },
        Node::User { uid, name } => {
            lines.push(String::from_str("kind: user"));
            let mut l1: Vec<char> = Vec::new();
            push_str(&mut l1, "uid: ");
            push_decimal(&mut l1, *uid as u64);
            push_str(&mut l1, " name: ");
            push_str(&mut l1, name.as_str());
            lines.push(string_of(&l1));
        },
    }
    assert(lines_of(lines@) =~= long_label(*node));
    lines
}

} // verus!
