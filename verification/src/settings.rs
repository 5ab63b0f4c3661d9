//! The lists of paths that the user edits: entries are tidied before they
//! are kept.

use vstd::prelude::*;
use crate::text::{char_replaced, replace_char, same_text, texts_of, trim, trimmed};

verus! {

/// An entry as it is kept: without white space around it and with
/// slashes for backslashes; nothing for an entry of white space.
pub open spec fn clean_entry(value: Seq<char>) -> Option<Seq<char>> {
    if trimmed(value).len() == 0 {
        None
    } else {
        Some(char_replaced(trimmed(value), '\\', '/'))
    }
}

/// The entries as they are kept: each tidied, without those that are
/// empty, and each only where it first occurs.
pub open spec fn clean_entries(paths: Seq<Seq<char>>) -> Seq<Seq<char>>
    decreases paths.len(),
{
    if paths.len() == 0 {
        Seq::<Seq<char>>::empty()
    } else {
        let before = clean_entries(paths.drop_last());
        match clean_entry(paths.last()) {
            Some(v) => if before.contains(v) {
                before
            } else {
                before.push(v)
            },
            None => before,
        }
    }
}

/// An optional string by value.
pub open spec fn text_of(r: Option<String>) -> Option<Seq<char>> {
    match r {
        Some(s) => Some(s@),
        None => None,
    }
}

/// Tidies one entry.
pub fn sanitize_path_entry(value: &str) -> (r: Option<String>)
    ensures
        text_of(r) == clean_entry(value@),
{
    let trimmed = trim(value);
    if trimmed.is_empty() {
        return None;
    }
    let normalized = replace_char(trimmed, '\\', '/');
    Some(normalized)
}

/// Tidies a list of entries.
pub fn sanitize_paths(paths: &Vec<String>) -> (cleaned: Vec<String>)
    ensures
        texts_of(cleaned@) == clean_entries(texts_of(paths@)),
{
    let mut cleaned: Vec<String> = Vec::new();
    let ghost all = texts_of(paths@);
    let mut i: usize = 0;
    proof {
        assert(all.take(0) =~= Seq::<Seq<char>>::empty());
        assert(texts_of(cleaned@) =~= Seq::<Seq<char>>::empty());
    }
    while i < paths.len()
        invariant
            i <= paths.len(),
            all == texts_of(paths@),
            texts_of(cleaned@) == clean_entries(all.take(i as int)),
        decreases paths.len() - i,
    {
        proof {
            assert(all.take(i + 1).drop_last() =~= all.take(i as int));
            assert(all.take(i + 1).last() == paths@[i as int]@);
        }
        match sanitize_path_entry(paths[i].as_str()) {
            Some(value) => {
                let mut known = false;
                let mut k: usize = 0;
                while k < cleaned.len()
                    invariant
                        k <= cleaned.len(),
                        !known ==> forall|j: int| 0 <= j < k ==> cleaned@[j]@ != value@,
                        known ==> texts_of(cleaned@).contains(value@),
                    decreases cleaned.len() - k,
                {
                    if same_text(cleaned[k].as_str(), value.as_str()) {
                        assert(texts_of(cleaned@)[k as int] == value@);
                        known = true;
                    }
                    k += 1;
                }
                proof {
                    if !known {
                        assert forall|j: int| 0 <= j < texts_of(cleaned@).len() implies texts_of(
                            cleaned@,
                        )[j] != value@ by {
                            assert(cleaned@[j]@ != value@);
                        }
                    }
                }
                if !known {
                    let ghost before = texts_of(cleaned@);
                    cleaned.push(value);
                    assert(texts_of(cleaned@) =~= before.push(value@));
                }
            },
            None => {},
        }
        i += 1;
    }
    proof {
        assert(all.take(paths.len() as int) =~= all);
    }
    cleaned
}

} // verus!
