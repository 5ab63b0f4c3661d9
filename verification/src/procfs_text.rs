//! The texts that the agent reads of the process file system and of the
//! user database: numbers, the flags of a file descriptor, and the names
//! of users.

use vstd::prelude::*;
use crate::collections::VecMap;
use crate::text::{
    chars_of, parts_of, split_at, split_chars, starts_with, string_of, text_starts_with, trim,
    trimmed,
};
use crate::wire::FileKind;

verus! {

/// The value of a digit in a radix of at most ten.
pub open spec fn digit_value(c: char, radix: nat) -> Option<nat> {
    if '0' <= c && c <= '9' && (c as nat - '0' as nat) < radix {
        Some((c as nat - '0' as nat) as nat)
    } else {
        None
    }
}

/// Whether every character of a text is a digit of the radix.
pub open spec fn all_digits(s: Seq<char>, radix: nat) -> bool {
    forall|i: int| 0 <= i < s.len() ==> digit_value(#[trigger] s[i], radix) is Some
}

/// The number that the digits of a text write in a radix.
pub open spec fn digits_value(s: Seq<char>, radix: nat) -> nat
    decreases s.len(),
{
    if s.len() == 0 {
        0
    } else {
        digits_value(s.drop_last(), radix) * radix + match digit_value(s.last(), radix) {
            Some(d) => d,
            None => 0,
        }
    }
}

/// The number that a text writes in a radix of at most ten: digits, at
/// least one, behind at most one sign. A minus sign is read only where
/// `signed` says so.
pub open spec fn number_value(s: Seq<char>, radix: nat, signed: bool) -> Option<int> {
    if s.len() == 0 {
        None
    } else if s[0] == '+' {
        if s.len() > 1 && all_digits(s.skip(1), radix) {
            Some(digits_value(s.skip(1), radix) as int)
        } else {
            None
        }
    } else if s[0] == '-' && signed {
        if s.len() > 1 && all_digits(s.skip(1), radix) {
            Some(-(digits_value(s.skip(1), radix) as int))
        } else {
            None
        }
    } else if all_digits(s, radix) {
        Some(digits_value(s, radix) as int)
    } else {
        None
    }
}

/// The number that a text writes, if it is one of 64 bits with a sign.
pub open spec fn i64_value(s: Seq<char>, radix: nat) -> Option<i64> {
    match number_value(s, radix, true) {
        Some(v) => if i64::MIN <= v <= i64::MAX {
            Some(v as i64)
        } else {
            None
        },
        None => None,
    }
}

/// The number that a text writes in decimal, if it is one of 32 bits
/// without a sign.
pub open spec fn u32_value(s: Seq<char>) -> Option<u32> {
    match number_value(s, 10, false) {
        Some(v) => if v <= u32::MAX {
            Some(v as u32)
        } else {
            None
        },
        None => None,
    }
}

proof fn lemma_digits_grow(s: Seq<char>, radix: nat, i: int)
    requires
        radix >= 1,
        0 <= i <= s.len(),
    ensures
        digits_value(s.take(i), radix) <= digits_value(s, radix),
    decreases s.len() - i,
{
    if i < s.len() {
        lemma_digits_grow(s, radix, i + 1);
        assert(s.take(i + 1).drop_last() =~= s.take(i));
        let v = digits_value(s.take(i), radix);
        assert(v * radix >= v) by (nonlinear_arith)
            requires
                radix >= 1,
                v >= 0,
        ;
    } else {
        assert(s.take(i) =~= s);
    }
}

/// Reads the digits of `chars` from position `from` on, up to `limit`.
fn read_digits(chars: &Vec<char>, from: usize, radix: u64, limit: u64) -> (r: Option<u64>)
    requires
        from <= chars.len(),
        1 <= radix <= 10,
        10 <= limit <= 0x8000_0000_0000_0000,
    ensures
        r is Some <==> from < chars.len() && all_digits(chars@.skip(from as int), radix as nat)
            && digits_value(chars@.skip(from as int), radix as nat) <= limit,
        r is Some ==> r->0 == digits_value(chars@.skip(from as int), radix as nat),
{
    if from >= chars.len() {
        return None;
    }
    let ghost s = chars@.skip(from as int);
    let mut acc: u64 = 0;
    let mut i: usize = from;
    proof {
        assert(s.take(0) =~= Seq::<char>::empty());
    }
    while i < chars.len()
        invariant
            from <= i <= chars.len(),
            1 <= radix <= 10,
            10 <= limit <= 0x8000_0000_0000_0000,
            s == chars@.skip(from as int),
            all_digits(s.take(i - from), radix as nat),
            acc == digits_value(s.take(i - from), radix as nat),
            acc <= limit,
        decreases chars.len() - i,
    {
        let c = chars[i];
        assert(s[i - from] == c);
        proof {
            assert(s.take(i - from + 1).drop_last() =~= s.take(i - from));
            assert(s.take(i - from + 1).last() == c);
        }
        let ok = '0' <= c && c <= '9' && ((c as u64) - ('0' as u64)) < radix;
        if !ok {
            assert(digit_value(c, radix as nat) is None);
            assert(!all_digits(s, radix as nat));
            return None;
        }
        let d = (c as u64) - ('0' as u64);
        assert(digit_value(c, radix as nat) == Some(d as nat));
        if acc > (limit - d) / radix {
            proof {
                let v = digits_value(s.take(i - from + 1), radix as nat);
                assert(v == acc * radix + d);
                assert(acc * radix + d > limit) by (nonlinear_arith)
                    requires
                        acc as int > (limit - d) / (radix as int),
                        radix >= 1,
                        d <= limit,
                ;
                lemma_digits_grow(s, radix as nat, i - from + 1);
            }
            return None;
        }
        proof {
            assert(acc * radix + d <= limit) by (nonlinear_arith)
                requires
                    acc as int <= (limit - d) / (radix as int),
                    radix >= 1,
                    d <= limit,
            ;
            assert forall|k: int| 0 <= k < s.take(i - from + 1).len() implies digit_value(
                #[trigger] s.take(i - from + 1)[k],
                radix as nat,
            ) is Some by {
                if k < i - from {
                    assert(s.take(i - from)[k] == s.take(i - from + 1)[k]);
                }
            }
        }
        acc = acc * radix + d;
        i += 1;
    }
    proof {
        assert(s.take(chars.len() - from) =~= s);
    }
    Some(acc)
}

/// Reads a number of 64 bits with a sign, in a radix of at most ten.
pub fn parse_i64(text: &str, radix: u64) -> (r: Option<i64>)
    requires
        1 <= radix <= 10,
    ensures
        r == i64_value(text@, radix as nat),
{
    let chars = chars_of(text);
    if chars.len() == 0 {
        return None;
    }
    if chars[0] == '-' {
        match read_digits(&chars, 1, radix, 0x8000_0000_0000_0000) {
            Some(v) => {
                if v == 0x8000_0000_0000_0000 {
                    Some(i64::MIN)
                } else {
                    Some(-(v as i64))
                }
            },
            None => None,
        }
    } else if chars[0] == '+' {
        match read_digits(&chars, 1, radix, 0x7fff_ffff_ffff_ffff) {
            Some(v) => Some(v as i64),
            None => None,
        }
    } else {
        proof {
            assert(chars@.skip(0) =~= chars@);
        }
        match read_digits(&chars, 0, radix, 0x7fff_ffff_ffff_ffff) {
            Some(v) => Some(v as i64),
            None => None,
        }
    }
}

/// Reads a decimal number of 32 bits without a sign.
pub fn parse_u32(text: &str) -> (r: Option<u32>)
    ensures
        r == u32_value(text@),
{
    let chars = chars_of(text);
    if chars.len() == 0 {
        return None;
    }
    if chars[0] == '+' {
        match read_digits(&chars, 1, 10, 0xffff_ffff) {
            Some(v) => Some(v as u32),
            None => None,
        }
    } else {
        proof {
            assert(chars@.skip(0) =~= chars@);
            if chars@[0] == '-' {
                assert(digit_value(chars@[0], 10) is None);
            }
        }
        match read_digits(&chars, 0, 10, 0xffff_ffff) {
            Some(v) => Some(v as u32),
            None => None,
        }
    }
}

/// A text without the zeros at its start.
pub open spec fn without_zeros(s: Seq<char>) -> Seq<char>
    decreases s.len(),
{
    if s.len() > 0 && s[0] == '0' {
        without_zeros(s.drop_first())
    } else {
        s
    }
}

/// The flags that a text writes: in octal behind zeros if it starts with
/// a zero, and in decimal else.
pub open spec fn flags_value(v: Seq<char>) -> Option<i64> {
    if v.len() > 0 && v[0] == '0' {
        i64_value(without_zeros(v), 8)
    } else {
        i64_value(v, 10)
    }
}

/// The flags that the first of the given lines that starts with
/// `flags:` writes behind it, white space apart.
pub open spec fn flags_in(lines: Seq<Seq<char>>) -> Option<i64>
    decreases lines.len(),
{
    if lines.len() == 0 {
        None
    } else if starts_with(lines[0], "flags:"@) {
        flags_value(trimmed(lines[0].skip(6)))
    } else {
        flags_in(lines.drop_first())
    }
}

/// How a file is open, by the two lowest bits of its flags.
pub open spec fn mode_text(flags: i64) -> Seq<char> {
    if flags & 3 == 0 {
        "r"@
    } else if flags & 3 == 1 {
        "w"@
    } else if flags & 3 == 2 {
        "rw"@
    } else {
        "?"@
    }
}

/// How a file is open: `r`, `w` or `rw`, and `?` for flags that say
/// none of them.
pub fn fd_mode_from_flags(flags: i64) -> (mode: String)
    ensures
        mode@ == mode_text(flags),
{
    let low = flags & 3;
    if low == 0 {
        String::from_str("r")
    } else if low == 1 {
        String::from_str("w")
    } else if low == 2 {
        String::from_str("rw")
    } else {
        String::from_str("?")
    }
}

/// The flags of a file descriptor, as its description in the process
/// file system gives them.
pub fn parse_fd_flags(content: &str) -> (r: Option<i64>)
    ensures
        r == flags_in(split_at(content@, '\n')),
{
    let chars = chars_of(content);
    let lines = split_chars(&chars, '\n');
    let ghost all = parts_of(lines@);
    let mut i: usize = 0;
    proof {
        assert(all.skip(0) =~= all);
    }
    while i < lines.len()
        invariant
            i <= lines.len(),
            all == parts_of(lines@),
            all == split_at(content@, '\n'),
            flags_in(all) == flags_in(all.skip(i as int)),
        decreases lines.len() - i,
    {
        let line = string_of(&lines[i]);
        proof {
            assert(all.skip(i as int)[0] == line@);
            assert(all.skip(i as int).drop_first() =~= all.skip(i + 1));
        }
        if text_starts_with(line.as_str(), "flags:") {
            proof {
                reveal_strlit("flags:");
                assert("flags:"@.len() == 6);
            }
            let line_chars = &lines[i];
            let mut rest: Vec<char> = Vec::new();
            let mut k: usize = 6;
            while k < line_chars.len()
                invariant
                    6 <= k <= line_chars.len(),
                    rest@ == line_chars@.subrange(6, k as int),
                decreases line_chars.len() - k,
            {
                rest.push(line_chars[k]);
                k += 1;
                assert(rest@ =~= line_chars@.subrange(6, k as int));
            }
            assert(rest@ =~= line@.skip(6));
            let rest_text = string_of(&rest);
            let v = trim(rest_text.as_str());
            let v_chars = chars_of(v);
            proof {
                let here = all.skip(i as int);
                assert(starts_with(here[0], "flags:"@));
                assert(flags_in(here) == flags_value(trimmed(here[0].skip(6))));
                assert(v@ == trimmed(line@.skip(6)));
                assert(v_chars@.skip(0) =~= v_chars@);
            }
            if v_chars.len() > 0 && v_chars[0] == '0' {
                let mut z: usize = 0;
                while z < v_chars.len() && v_chars[z] == '0'
                    invariant
                        z <= v_chars.len(),
                        without_zeros(v_chars@) == without_zeros(v_chars@.skip(z as int)),
                    decreases v_chars.len() - z,
                {
                    proof {
                        assert(v_chars@.skip(z as int)[0] == '0');
                        assert(v_chars@.skip(z as int).drop_first() =~= v_chars@.skip(z + 1));
                    }
                    z += 1;
                }
                proof {
                    assert(v_chars@.skip(0) =~= v_chars@);
                }
                let mut digits: Vec<char> = Vec::new();
                let mut q: usize = z;
                while q < v_chars.len()
                    invariant
                        z <= q <= v_chars.len(),
                        digits@ == v_chars@.subrange(z as int, q as int),
                    decreases v_chars.len() - q,
                {
                    digits.push(v_chars[q]);
                    q += 1;
                    assert(digits@ =~= v_chars@.subrange(z as int, q as int));
                }
                proof {
                    assert(digits@ =~= v_chars@.skip(z as int));
                    if z < v_chars.len() {
                        assert(v_chars@.skip(z as int)[0] != '0');
                    }
                    assert(without_zeros(v_chars@.skip(z as int)) == v_chars@.skip(z as int));
                    assert(flags_value(v@) == i64_value(digits@, 8));
                }
                let digits_text = string_of(&digits);
                return parse_i64(digits_text.as_str(), 8);
            } else {
                return parse_i64(v, 10);
            }
        }
        i += 1;
    }
    proof {
        assert(all.skip(lines.len() as int) =~= Seq::<Seq<char>>::empty());
    }
    None
}

/// A line without the carriage return at its end.
pub open spec fn without_return(line: Seq<char>) -> Seq<char> {
    if line.len() > 0 && line.last() == '\r' {
        line.drop_last()
    } else {
        line
    }
}

/// What a line of the user database says: the number of a user and the
/// name. A line of white space, a comment, a line of fewer than three
/// fields and one whose third field is no number say nothing.
pub open spec fn passwd_entry(line: Seq<char>) -> Option<(u32, Seq<char>)> {
    let text = without_return(line);
    let fields = split_at(text, ':');
    if trimmed(text).len() == 0 || starts_with(text, "#"@) || fields.len() < 3 {
        None
    } else {
        match u32_value(fields[2]) {
            Some(uid) => Some((uid, fields[0])),
            None => None,
        }
    }
}

/// The names of users that the given lines give, by number; of two lines
/// for one number the later counts.
pub open spec fn passwd_names(lines: Seq<Seq<char>>) -> Map<u32, Seq<char>>
    decreases lines.len(),
{
    if lines.len() == 0 {
        Map::empty()
    } else {
        let before = passwd_names(lines.drop_last());
        match passwd_entry(lines.last()) {
            Some((uid, name)) => before.insert(uid, name),
            None => before,
        }
    }
}

/// The names in a map of users, as texts.
pub open spec fn names_of(users: Map<u32, String>) -> Map<u32, Seq<char>> {
    Map::new(|uid: u32| users.contains_key(uid), |uid: u32| users[uid]@)
}

/// Reads the user database: the names of users by number.
pub fn parse_passwd(content: &str) -> (users: VecMap<u32, String>)
    ensures
        users.wf(),
        names_of(users@) == passwd_names(split_at(content@, '\n')),
{
    let chars = chars_of(content);
    let lines = split_chars(&chars, '\n');
    let ghost all = parts_of(lines@);
    let mut users: VecMap<u32, String> = VecMap::new();
    let mut i: usize = 0;
    proof {
        assert(all.take(0) =~= Seq::<Seq<char>>::empty());
        assert(names_of(users@) =~= Map::<u32, Seq<char>>::empty());
    }
    while i < lines.len()
        invariant
            i <= lines.len(),
            all == parts_of(lines@),
            all == split_at(content@, '\n'),
            users.wf(),
            names_of(users@) == passwd_names(all.take(i as int)),
        decreases lines.len() - i,
    {
        proof {
            assert(all.take(i + 1).drop_last() =~= all.take(i as int));
            assert(all.take(i + 1).last() == lines@[i as int]@);
        }
        let raw = &lines[i];
        let mut line: Vec<char> = Vec::new();
        let keep = if raw.len() > 0 && raw[raw.len() - 1] == '\r' {
            raw.len() - 1
        } else {
            raw.len()
        };
        let mut k: usize = 0;
        while k < keep
            invariant
                k <= keep <= raw.len(),
                line@ == raw@.take(k as int),
            decreases keep - k,
        {
            line.push(raw[k]);
            k += 1;
            assert(line@ =~= raw@.take(k as int));
        }
        proof {
            assert(line@ =~= without_return(raw@));
        }
        let text = string_of(&line);
        let blank = trim(text.as_str()).is_empty();
        let comment = text_starts_with(text.as_str(), "#");
        if !blank && !comment {
            let fields = split_chars(&line, ':');
            if fields.len() >= 3 {
                let number = string_of(&fields[2]);
                match parse_u32(number.as_str()) {
                    Some(uid) => {
                        let name = string_of(&fields[0]);
                        let ghost before = names_of(users@);
                        users.insert(uid, name);
                        proof {
                            assert(names_of(users@) =~= before.insert(uid, fields@[0]@));
                        }
                    },
                    None => {},
                }
            }
        }
        i += 1;
    }
    proof {
        assert(all.take(lines.len() as int) =~= all);
    }
    users
}

/// The kind of file that a path names, as far as the path tells: a
/// socket, a pipe, a device, or unknown.
pub open spec fn kind_of_path(p: Seq<char>) -> FileKind {
    if starts_with(p, "socket:"@) {
        FileKind::Socket
    } else if starts_with(p, "pipe:"@) {
        FileKind::Pipe
    } else if starts_with(p, "/dev/"@) {
        FileKind::Device
    } else {
        FileKind::Unknown
    }
}

/// The kind of file that a path names, as far as the path tells.
pub fn file_kind_from_path(p: &str) -> (kind: FileKind)
    ensures
        kind == kind_of_path(p@),
{
    if text_starts_with(p, "socket:") {
        FileKind::Socket
    } else if text_starts_with(p, "pipe:") {
        FileKind::Pipe
    } else if text_starts_with(p, "/dev/") {
        FileKind::Device
    } else {
        FileKind::Unknown
    }
}

} // verus!
