//! Extension and stem of a file name (the final component of a path), following
//! the rules that `std::path::Path::extension` and `Path::file_stem` document.

use vstd::prelude::*;
use crate::text::{
    ascii_lower, chars_of, string_from_chars, to_ascii_lowercase,
};

verus! {

broadcast use vstd::string::group_string_axioms;

/// Position of the last `.` in `name`, or -1 when there is none.
pub open spec fn last_dot(name: Seq<char>) -> int
    decreases name.len(),
{
    if name.len() == 0 {
        -1
    } else if name.last() == '.' {
        name.len() - 1
    } else {
        last_dot(name.drop_last())
    }
}

/// The name `..`, which has neither stem split nor extension.
pub open spec fn is_parent_name(name: Seq<char>) -> bool {
    name == seq!['.', '.']
}

/// The extension of a file name: `None` when there is no `.`, or when the only
/// `.` opens the name (and for `..`); otherwise what follows the last `.`.
pub open spec fn spec_extension(name: Seq<char>) -> Option<Seq<char>> {
    let k = last_dot(name);
    if is_parent_name(name) || k <= 0 {
        None
    } else {
        Some(name.subrange(k + 1, name.len() as int))
    }
}

/// The stem of a file name: the whole name when it has no extension, otherwise
/// what precedes the last `.`.
pub open spec fn spec_stem(name: Seq<char>) -> Seq<char> {
    let k = last_dot(name);
    if is_parent_name(name) || k <= 0 {
        name
    } else {
        name.subrange(0, k)
    }
}

/// The extension, lower-cased, or the empty sequence when there is none
/// (`extension().unwrap_or("").to_ascii_lowercase()`).
pub open spec fn lower_extension(name: Seq<char>) -> Seq<char> {
    match spec_extension(name) {
        Some(e) => ascii_lower(e),
        None => seq![],
    }
}

/// `x` spells the lower-case word `word` with any mix of ASCII upper- and
/// lower-case letters: each character is the word's, or the upper-case form of a
/// letter of it (upper-case ASCII letters lie 32 below their lower-case forms).
pub open spec fn spells_ignoring_case(x: Seq<char>, word: Seq<char>) -> bool {
    x.len() == word.len() && forall|i: int|
        0 <= i < x.len() ==> (#[trigger] x[i] == word[i] || ('a' <= word[i] && word[i] <= 'z'
            && x[i] as u32 + 32 == word[i] as u32))
}

/// The file named `name` has an extension (as `Path::extension` finds it) that
/// spells `word` ignoring ASCII case.
pub open spec fn has_extension(name: Seq<char>, word: Seq<char>) -> bool {
    match spec_extension(name) {
        Some(x) => spells_ignoring_case(x, word),
        None => false,
    }
}

/// A word holding no upper-case ASCII letter.
pub open spec fn is_lower_word(word: Seq<char>) -> bool {
    forall|i: int| 0 <= i < word.len() ==> !('A' <= #[trigger] word[i] && word[i] <= 'Z')
}

/// Lower-casing `x` gives the lower-case `word` exactly when `x` spells it
/// ignoring case.
pub proof fn lemma_lower_is_spelling(x: Seq<char>, word: Seq<char>)
    requires
        is_lower_word(word),
    ensures
        (ascii_lower(x) == word) <==> spells_ignoring_case(x, word),
{
    if ascii_lower(x) == word {
        assert forall|i: int| 0 <= i < x.len() implies (#[trigger] x[i] == word[i] || ('a' <= word[i] && word[i] <= 'z'
            && x[i] as u32 + 32 == word[i] as u32)) by {
            assert(ascii_lower(x)[i] == crate::text::lower_char(x[i]));
        }
    }
    if spells_ignoring_case(x, word) {
        assert forall|i: int| 0 <= i < x.len() implies #[trigger] ascii_lower(x)[i] == word[i] by {
            assert(ascii_lower(x)[i] == crate::text::lower_char(x[i]));
            if x[i] != word[i] {
                assert(x[i] as u32 + 32 == word[i] as u32);
            }
        }
        assert(ascii_lower(x) =~= word);
    }
}

/// The lower-cased extension of `name` is the non-empty lower-case `word` exactly
/// when `name` has an extension spelling `word` ignoring case.
pub proof fn lemma_lower_extension_is(name: Seq<char>, word: Seq<char>)
    requires
        is_lower_word(word),
        word.len() > 0,
    ensures
        (lower_extension(name) == word) <==> has_extension(name, word),
{
    match spec_extension(name) {
        Some(x) => lemma_lower_is_spelling(x, word),
        None => {},
    }
}

/// `text` holds, somewhere, a run of characters spelling the lower-case `word`
/// ignoring ASCII case.
pub open spec fn mentions_ignoring_case(text: Seq<char>, word: Seq<char>) -> bool {
    exists|i: int|
        0 <= i && i + word.len() <= text.len() && spells_ignoring_case(#[trigger] text.subrange(i, i + word.len()), word)
}

/// The lower-cased `text` contains the lower-case `word` exactly when `text`
/// mentions it in any case.
pub proof fn lemma_lower_contains(text: Seq<char>, word: Seq<char>)
    requires
        is_lower_word(word),
    ensures
        crate::text::contains(ascii_lower(text), word) <==> mentions_ignoring_case(text, word),
{
    let n = word.len() as int;
    assert forall|i: int| 0 <= i && i + n <= text.len() implies #[trigger] ascii_lower(text).subrange(i, i + n)
        == ascii_lower(text.subrange(i, i + n)) by {
        assert(ascii_lower(text).subrange(i, i + n) =~= ascii_lower(text.subrange(i, i + n)));
    }
    if crate::text::contains(ascii_lower(text), word) {
        let i = choose|i: int| crate::text::occurs_at(ascii_lower(text), word, i);
        assert(ascii_lower(text).subrange(i, i + n) == ascii_lower(text.subrange(i, i + n)));
        lemma_lower_is_spelling(text.subrange(i, i + n), word);
    }
    if mentions_ignoring_case(text, word) {
        let i = choose|i: int|
            0 <= i && i + n <= text.len() && spells_ignoring_case(#[trigger] text.subrange(i, i + n), word);
        lemma_lower_is_spelling(text.subrange(i, i + n), word);
        assert(ascii_lower(text).subrange(i, i + n) == ascii_lower(text.subrange(i, i + n)));
        assert(crate::text::occurs_at(ascii_lower(text), word, i));
    }
}

proof fn lemma_last_dot_prefix(name: Seq<char>, i: int)
    requires
        0 <= i <= name.len(),
        forall|j: int| i <= j < name.len() ==> #[trigger] name[j] != '.',
    ensures
        last_dot(name) == last_dot(name.take(i)),
    decreases name.len() - i,
{
    if i < name.len() {
        assert(name.drop_last().take(i) =~= name.take(i));
        lemma_last_dot_prefix(name.drop_last(), i);
    } else {
        assert(name.take(i) =~= name);
    }
}

/// Position of the last `.` in `cs`, or `None`.
fn last_dot_exec(cs: &Vec<char>) -> (k: Option<usize>)
    ensures
        match k {
            Some(i) => i == last_dot(cs@) && i < cs.len(),
            None => last_dot(cs@) == -1,
        },
{
    let mut i: usize = cs.len();
    while i > 0 && cs[i - 1] != '.'
        invariant
            i <= cs@.len(),
            forall|j: int| i <= j < cs@.len() ==> #[trigger] cs@[j] != '.',
        decreases i,
    {
        i = i - 1;
    }
    proof {
        lemma_last_dot_prefix(cs@, i as int);
        if i > 0 {
            assert(cs@.take(i as int).last() == '.');
        } else {
            assert(cs@.take(0).len() == 0);
        }
    }
    if i == 0 {
        None
    } else {
        Some(i - 1)
    }
}

fn is_parent_name_exec(cs: &Vec<char>) -> (r: bool)
    ensures
        r == is_parent_name(cs@),
{
    let r = cs.len() == 2 && cs[0] == '.' && cs[1] == '.';
    proof {
        if r {
            assert(cs@ =~= seq!['.', '.']);
        }
    }
    r
}

/// The extension of the file name `name`, as `Path::extension` gives it.
pub fn file_extension(name: &str) -> (e: Option<String>)
    ensures
        match e {
            Some(x) => spec_extension(name@) == Some(x@),
            None => spec_extension(name@) is None,
        },
{
    let cs = chars_of(name);
    if is_parent_name_exec(&cs) {
        return None;
    }
    match last_dot_exec(&cs) {
        Some(k) => {
            if k == 0 {
                None
            } else {
                Some(string_from_chars(cs.as_slice(), k + 1, cs.len()))
            }
        }
        None => None,
    }
}

/// The stem of the file name `name`, as `Path::file_stem` gives it.
pub fn file_stem(name: &str) -> (s: String)
    ensures
        s@ == spec_stem(name@),
{
    let cs = chars_of(name);
    if is_parent_name_exec(&cs) {
        return string_from_chars(cs.as_slice(), 0, cs.len());
    }
    match last_dot_exec(&cs) {
        Some(k) => {
            if k == 0 {
                string_from_chars(cs.as_slice(), 0, cs.len())
            } else {
                string_from_chars(cs.as_slice(), 0, k)
            }
        }
        None => string_from_chars(cs.as_slice(), 0, cs.len()),
    }
}

/// The extension of `name` in lower case, empty when there is none.
pub fn lower_extension_exec(name: &str) -> (e: String)
    ensures
        e@ == lower_extension(name@),
{
    match file_extension(name) {
        Some(x) => to_ascii_lowercase(x.as_str()),
        None => String::new(),
    }
}

} // verus!
