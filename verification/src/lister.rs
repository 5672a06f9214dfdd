//! The list of templates, as it is shown to the user.

use crate::text::{ends_with, has_prefix, has_suffix, starts_with};
use vstd::prelude::*;
use vstd::string::*;

verus! {

/// `s` without `suffix` at its end, where it ends with it.
pub open spec fn without_suffix(s: Seq<char>, suffix: Seq<char>) -> Seq<char> {
    if ends_with(s, suffix) {
        s.subrange(0, s.len() - suffix.len())
    } else {
        s
    }
}

/// The name under which the template in the file `file_name` is shown: the
/// file's name without the extension `.txt`, and for a dated template
/// `(DATE) ` in place of the prefix `DATE-`.
pub open spec fn display_name(file_name: Seq<char>) -> Seq<char> {
    let stem = without_suffix(file_name, ".txt"@);
    if starts_with(stem, "DATE-"@) {
        "(DATE) "@ + stem.skip("DATE-"@.len() as int)
    } else {
        stem
    }
}

/// The display names of a sequence of file names, each in its place.
pub open spec fn display_names(file_names: Seq<String>) -> Seq<Seq<char>> {
    Seq::new(file_names.len(), |i: int| display_name(file_names[i]@))
}

/// The texts of a sequence of strings.
pub open spec fn texts(v: Seq<String>) -> Seq<Seq<char>> {
    Seq::new(v.len(), |i: int| v[i]@)
}

/// The order of strings: character by character from the left, by code
/// point, a text before every text that it begins.
pub open spec fn lex_le(a: Seq<char>, b: Seq<char>) -> bool
    decreases a.len(),
{
    if a.len() == 0 {
        true
    } else if b.len() == 0 {
        false
    } else if a[0] != b[0] {
        a[0] < b[0]
    } else {
        lex_le(a.drop_first(), b.drop_first())
    }
}

/// No text stands before one that is smaller.
pub open spec fn sorted(v: Seq<Seq<char>>) -> bool {
    forall|i: int, j: int| 0 <= i <= j < v.len() ==> lex_le(#[trigger] v[i], #[trigger] v[j])
}

/// `sort` of a vector of strings: the same strings, each as often as
/// before, in ascending order. Strings are ordered by their bytes, which for
/// UTF-8 is the order of their characters' code points.
#[verifier::external_body]
fn sort_names(names: &mut Vec<String>)
    ensures
        texts(final(names)@).to_multiset() == texts(old(names)@).to_multiset(),
        sorted(texts(final(names)@)),
{
    names.sort();
}

/// The name under which a template is shown, from the name of its file.
pub fn get_template_name(file_name: &str) -> (name: String)
    ensures
        name@ == display_name(file_name@),
{
    let stem = if has_suffix(file_name, ".txt") {
        file_name.substring_char(0, file_name.unicode_len() - ".txt".unicode_len())
    } else {
        file_name
    };
    if has_prefix(stem, "DATE-") {
        let rest = stem.substring_char("DATE-".unicode_len(), stem.unicode_len());
        assert(rest@ =~= stem@.skip("DATE-"@.len() as int));
        String::from_str("(DATE) ").concat(rest)
    } else {
        String::from_str(stem)
    }
}

/// The display names of the templates in the given files, in ascending
/// order. `file_names` holds the name of each file of the template
/// directory.
pub fn list_available_templates(file_names: &Vec<String>) -> (templates: Vec<String>)
    ensures
        texts(templates@).to_multiset() == display_names(file_names@).to_multiset(),
        sorted(texts(templates@)),
{
    let mut templates: Vec<String> = Vec::new();
    let mut i: usize = 0;
    while i < file_names.len()
        invariant
            i <= file_names@.len(),
            templates@.len() == i,
            forall|k: int| 0 <= k < i ==> templates@[k]@ == display_name(file_names@[k]@),
        decreases file_names@.len() - i,
    {
        templates.push(get_template_name(file_names[i].as_str()));
        i += 1;
    }
    assert(texts(templates@) =~= display_names(file_names@));
    sort_names(&mut templates);
    templates
}

} // verus!
