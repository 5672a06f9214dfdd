//! Placeholder tokens: `{{name}}`, where the name is one or more ASCII
//! letters. Anything else between braces is ordinary text.

use crate::error::TemplateError;
use crate::ordered::{
    empty_map, entries, entry_at, entry_count, insert_entry, inserted, key_position, set_value_at,
};
use crate::text::{
    lemma_replaced_without_occurrence, occurs_at, replace_all, replaced, trim, trimmed,
};
use indexmap::IndexMap;
use vstd::prelude::*;
use vstd::string::*;

verus! {

/// The characters that a placeholder's name is made of.
pub open spec fn is_name_char(c: char) -> bool {
    ('a' <= c && c <= 'z') || ('A' <= c && c <= 'Z')
}

/// A name of a placeholder: one or more name characters.
pub open spec fn is_name(name: Seq<char>) -> bool {
    name.len() >= 1 && forall|j: int| 0 <= j < name.len() ==> is_name_char(#[trigger] name[j])
}

/// The length of the longest run of name characters that starts at `from`.
pub open spec fn name_len(s: Seq<char>, from: int) -> nat
    decreases s.len() - from,
{
    if 0 <= from < s.len() && is_name_char(s[from]) {
        1 + name_len(s, from + 1)
    } else {
        0
    }
}

/// A token starts at position `i`: two opening braces, a name, two closing
/// braces.
pub open spec fn token_at(s: Seq<char>, i: int) -> bool {
    let n = name_len(s, i + 2);
    &&& 0 <= i
    &&& n >= 1
    &&& i + n + 4 <= s.len()
    &&& s[i] == '{'
    &&& s[i + 1] == '{'
    &&& s[i + 2 + n] == '}'
    &&& s[i + 3 + n] == '}'
}

/// The name of the token that starts at `i`.
pub open spec fn name_at(s: Seq<char>, i: int) -> Seq<char> {
    s.subrange(i + 2, i + 2 + name_len(s, i + 2))
}

/// The names of the tokens that start before position `end`, one for each
/// occurrence, in the order of the text.
pub open spec fn names_before(s: Seq<char>, end: int) -> Seq<Seq<char>>
    decreases end,
{
    if end <= 0 {
        Seq::empty()
    } else if token_at(s, end - 1) {
        names_before(s, end - 1).push(name_at(s, end - 1))
    } else {
        names_before(s, end - 1)
    }
}

/// The names of all tokens of a text, one for each occurrence.
pub open spec fn token_names(s: Seq<char>) -> Seq<Seq<char>> {
    names_before(s, s.len() as int)
}

/// A sequence of names without its repetitions: each name stands where it
/// stood first.
pub open spec fn distinct(names: Seq<Seq<char>>) -> Seq<Seq<char>>
    decreases names.len(),
{
    if names.len() == 0 {
        Seq::empty()
    } else {
        let d = distinct(names.drop_last());
        if d.contains(names.last()) {
            d
        } else {
            d.push(names.last())
        }
    }
}

/// The placeholders of a text: the names of its tokens, each once, in the
/// order in which they first occur.
pub open spec fn placeholders(s: Seq<char>) -> Seq<Seq<char>> {
    distinct(token_names(s))
}

/// One entry for each key, in order, each with the empty string as value.
pub open spec fn blank_entries(keys: Seq<Seq<char>>) -> Seq<(Seq<char>, Seq<char>)> {
    Seq::new(keys.len(), |i: int| (keys[i], Seq::<char>::empty()))
}

/// The token that stands for a key: the key between two pairs of braces.
pub open spec fn braced(key: Seq<char>) -> Seq<char> {
    seq!['{', '{'] + key + seq!['}', '}']
}

/// The text after the entries have been applied one after the other, in
/// their order: each replaces every occurrence of its key's token, in the
/// text as the entries before it have left it, by its value.
pub open spec fn substituted(t: Seq<char>, e: Seq<(Seq<char>, Seq<char>)>) -> Seq<char>
    decreases e.len(),
{
    if e.len() == 0 {
        t
    } else {
        replaced(substituted(t, e.drop_last()), braced(e.last().0), e.last().1)
    }
}

/// The entries with their values taken from the responses, by position:
/// each value is the response without the white space around it.
pub open spec fn answered(
    e: Seq<(Seq<char>, Seq<char>)>,
    responses: Seq<String>,
) -> Seq<(Seq<char>, Seq<char>)> {
    Seq::new(e.len(), |i: int| (e[i].0, trimmed(responses[i]@)))
}

/// A text filled in: each of its placeholders gets the response at its
/// position, and the entries are applied in that order.
pub open spec fn filled(txt: Seq<char>, responses: Seq<String>) -> Seq<char> {
    substituted(txt, answered(blank_entries(placeholders(txt)), responses))
}

/// The label with which the user is asked for the value of a key.
pub open spec fn prompt_of(key: Seq<char>) -> Seq<char> {
    key + " ⇒ "@
}

/// Tests whether a character can stand in a name.
fn is_name_character(c: char) -> (b: bool)
    ensures
        b == is_name_char(c),
{
    ('a' <= c && c <= 'z') || ('A' <= c && c <= 'Z')
}

/// Tests whether a token starts at `i`, and returns the position at which its
/// name ends.
fn token_name_end(txt: &str, len: usize, i: usize) -> (end: Option<usize>)
    requires
        len == txt@.len(),
        i < len,
    ensures
        end is Some <==> token_at(txt@, i as int),
        end is Some ==> end->0 == i + 2 + name_len(txt@, i + 2),
{
    if len - i < 5 {
        return None;
    }
    if txt.get_char(i) != '{' || txt.get_char(i + 1) != '{' {
        return None;
    }
    let mut j: usize = i + 2;
    while j < len && is_name_character(txt.get_char(j))
        invariant
            len == txt@.len(),
            i + 2 <= j <= len,
            forall|k: int| i + 2 <= k < j ==> is_name_char(#[trigger] txt@[k]),
        decreases len - j,
    {
        j += 1;
    }
    proof {
        lemma_name_len_run(txt@, i + 2, j as int);
    }
    if j == i + 2 || len - j < 2 {
        return None;
    }
    if txt.get_char(j) != '}' || txt.get_char(j + 1) != '}' {
        return None;
    }
    Some(j)
}

/// Finds the placeholders of a text.
///
/// The result holds one entry for each distinct token name, in the order in
/// which the names first occur, each with an empty value.
pub fn find_moustaches(txt: &str) -> (moustaches: IndexMap<String, String>)
    ensures
        entries(moustaches) == blank_entries(placeholders(txt@)),
{
    let mut moustaches = empty_map();
    let len = txt.unicode_len();
    let mut i: usize = 0;
    assert(entries(moustaches) =~= blank_entries(distinct(names_before(txt@, 0))));
    while i < len
        invariant
            len == txt@.len(),
            i <= len,
            entries(moustaches) == blank_entries(distinct(names_before(txt@, i as int))),
        decreases len - i,
    {
        match token_name_end(txt, len, i) {
            Some(end) => {
                let name = txt.substring_char(i + 2, end);
                proof {
                    lemma_insert_blank(names_before(txt@, i as int), name@);
                }
                insert_entry(&mut moustaches, String::from_str(name), String::new());
            },
            None => {},
        }
        i += 1;
    }
    moustaches
}

/// The label with which the user is asked for the value of a key: the key
/// and an arrow.
pub fn prompt_for(key: &str) -> (label: String)
    ensures
        label@ == prompt_of(key@),
{
    String::from_str(key).concat(" ⇒ ")
}

/// Gives each placeholder its value: the response at the placeholder's
/// position, without the white space around it.
///
/// Where fewer responses are given than the map has entries, the input has
/// ended early: the map is left as it was and the call fails. Responses
/// beyond the map's length are not looked at.
pub fn get_response_for_moustaches(
    moustaches: &mut IndexMap<String, String>,
    responses: &Vec<String>,
) -> (outcome: Result<(), TemplateError>)
    ensures
        responses@.len() < entries(*old(moustaches)).len() ==> outcome == Err::<
            (),
            TemplateError,
        >(TemplateError::InputStreamClosed) && entries(*final(moustaches)) == entries(
            *old(moustaches),
        ),
        responses@.len() >= entries(*old(moustaches)).len() ==> outcome is Ok && entries(
            *final(moustaches),
        ) == answered(entries(*old(moustaches)), responses@),
{
    let n = entry_count(moustaches);
    if responses.len() < n {
        return Err(TemplateError::InputStreamClosed);
    }
    let ghost before = entries(*moustaches);
    let mut i: usize = 0;
    while i < n
        invariant
            i <= n,
            n == before.len(),
            n <= responses@.len(),
            entries(*moustaches).len() == n,
            forall|k: int| 0 <= k < i ==> entries(*moustaches)[k] == answered(before, responses@)[k],
            forall|k: int| i <= k < n ==> entries(*moustaches)[k] == before[k],
        decreases n - i,
    {
        let value = trim(responses[i].as_str());
        set_value_at(moustaches, i, value);
        i += 1;
    }
    assert(entries(*moustaches) =~= answered(before, responses@));
    Ok(())
}

/// The token of a key.
fn braced_token(key: &str) -> (token: String)
    ensures
        token@ == braced(key@),
        token@.len() > 0,
{
    proof {
        reveal_strlit("{{");
        reveal_strlit("}}");
    }
    let token = String::from_str("{{").concat(key).concat("}}");
    assert(token@ =~= braced(key@));
    token
}

/// Fills in a text: every occurrence of each key's token is replaced by
/// the key's value, one entry after the other in the map's order.
///
/// A value that itself holds the token of a later key is rewritten when
/// that key's turn comes.
pub fn replace_moustaches(txt: &str, map: IndexMap<String, String>) -> (out: String)
    ensures
        out@ == substituted(txt@, entries(map)),
{
    let n = entry_count(&map);
    let mut out = String::from_str(txt);
    let mut i: usize = 0;
    while i < n
        invariant
            i <= n,
            n == entries(map).len(),
            out@ == substituted(txt@, entries(map).take(i as int)),
        decreases n - i,
    {
        let (key, value) = entry_at(&map, i);
        let token = braced_token(key.as_str());
        proof {
            let next = entries(map).take(i + 1);
            assert(next.drop_last() =~= entries(map).take(i as int));
            assert(next.last() == entries(map)[i as int]);
        }
        out = replace_all(out.as_str(), token.as_str(), value.as_str());
        i += 1;
    }
    assert(entries(map).take(n as int) =~= entries(map));
    out
}

/// Finds the placeholders of a text, gives each the response at its
/// position and fills the text in.
///
/// Fails where the responses are fewer than the distinct placeholders.
pub fn find_and_replace_moustaches(txt: &str, responses: &Vec<String>) -> (outcome: Result<
    String,
    TemplateError,
>)
    ensures
        responses@.len() < placeholders(txt@).len() ==> outcome == Err::<String, TemplateError>(
            TemplateError::InputStreamClosed,
        ),
        responses@.len() >= placeholders(txt@).len() ==> outcome is Ok && outcome->Ok_0@
            == filled(txt@, responses@),
{
    let mut moustaches = find_moustaches(txt);
    match get_response_for_moustaches(&mut moustaches, responses) {
        Ok(()) => Ok(replace_moustaches(txt, moustaches)),
        Err(e) => Err(e),
    }
}

/// A text in which no token starts holds no placeholder, and substituting
/// with no entries leaves any text as it is.
pub proof fn lemma_text_without_tokens(t: Seq<char>)
    requires
        forall|i: int| !token_at(t, i),
    ensures
        placeholders(t) == Seq::<Seq<char>>::empty(),
        blank_entries(placeholders(t)) == Seq::<(Seq<char>, Seq<char>)>::empty(),
        substituted(t, Seq::empty()) == t,
{
    lemma_no_names_before(t, t.len() as int);
    assert(blank_entries(Seq::<Seq<char>>::empty()) =~= Seq::<(Seq<char>, Seq<char>)>::empty());
}

/// The keys found in any text are names, each made of one or more letters,
/// and no key stands twice among them, however often its token occurs.
pub proof fn lemma_found_keys_are_distinct_names(t: Seq<char>)
    ensures
        forall|k: int| 0 <= k < placeholders(t).len() ==> is_name(#[trigger] placeholders(t)[k]),
        forall|i: int, j: int|
            0 <= i < j < placeholders(t).len() ==> placeholders(t)[i] != placeholders(t)[j],
{
    let names = token_names(t);
    lemma_names_before_are_names(t, t.len() as int);
    lemma_distinct(names);
    assert forall|k: int| 0 <= k < distinct(names).len() implies is_name(
        #[trigger] distinct(names)[k],
    ) by {
        let at = choose|at: int| 0 <= at < names.len() && names[at] == distinct(names)[k];
        assert(is_name(names[at]));
    }
}

/// The keys found are those names, and only those, of which a token stands
/// in the text.
pub proof fn lemma_found_keys_are_the_token_names(t: Seq<char>, name: Seq<char>)
    ensures
        placeholders(t).contains(name) <==> exists|i: int|
            #[trigger] token_at(t, i) && name_at(t, i) == name,
{
    lemma_distinct(token_names(t));
    lemma_names_before_cover(t, t.len() as int, name);
    if distinct(token_names(t)).contains(name) {
        let k = choose|k: int|
            0 <= k < distinct(token_names(t)).len() && distinct(token_names(t))[k] == name;
        assert(token_names(t).contains(distinct(token_names(t))[k]));
    }
    if token_names(t).contains(name) {
        let k = choose|k: int| 0 <= k < token_names(t).len() && token_names(t)[k] == name;
        assert(distinct(token_names(t)).contains(token_names(t)[k]));
    }
    if exists|i: int| #[trigger] token_at(t, i) && name_at(t, i) == name {
        let i = choose|i: int| #[trigger] token_at(t, i) && name_at(t, i) == name;
        assert(i < t.len());
    }
}

/// A token starts at a position exactly where the token of some name
/// occurs: what is found and what is replaced are the same thing.
pub proof fn lemma_token_is_braced_name(s: Seq<char>, i: int)
    ensures
        token_at(s, i) <==> exists|name: Seq<char>|
            is_name(name) && #[trigger] occurs_at(s, braced(name), i),
{
    if token_at(s, i) {
        let name = name_at(s, i);
        lemma_name_len_chars(s, i + 2);
        assert forall|j: int| 0 <= j < name.len() implies is_name_char(#[trigger] name[j]) by {
            assert(name[j] == s[i + 2 + j]);
        }
        assert(s.subrange(i, i + braced(name).len()) =~= braced(name));
        assert(is_name(name) && occurs_at(s, braced(name), i));
    }
    if exists|name: Seq<char>| is_name(name) && #[trigger] occurs_at(s, braced(name), i) {
        let name = choose|name: Seq<char>| is_name(name) && #[trigger] occurs_at(s, braced(name), i);
        let m = name.len() as int;
        let token = braced(name);
        let here = s.subrange(i, i + token.len());
        assert(token.len() == m + 4);
        assert forall|j: int| 0 <= j < m + 4 implies s[i + j] == token[j] by {
            assert(here[j] == s[i + j]);
        }
        assert(s[i] == token[0] && s[i + 1] == token[1]);
        assert(s[i + 2 + m] == token[m + 2] && s[i + 3 + m] == token[m + 3]);
        assert forall|k: int| i + 2 <= k < i + 2 + m implies is_name_char(#[trigger] s[k]) by {
            assert(s[i + (k - i)] == token[k - i]);
            assert(token[k - i] == name[k - i - 2]);
        }
        lemma_name_len_run(s, i + 2, i + 2 + m);
    }
}

/// Substituting in a text without tokens changes nothing, whatever the
/// values are, where every key is a name.
pub proof fn lemma_substitute_without_tokens(t: Seq<char>, e: Seq<(Seq<char>, Seq<char>)>)
    requires
        forall|i: int| !token_at(t, i),
        forall|k: int| 0 <= k < e.len() ==> is_name(#[trigger] e[k].0),
    ensures
        substituted(t, e) == t,
    decreases e.len(),
{
    if e.len() > 0 {
        let front = e.drop_last();
        assert forall|k: int| 0 <= k < front.len() implies is_name(#[trigger] front[k].0) by {
            assert(front[k] == e[k]);
        }
        lemma_substitute_without_tokens(t, front);
        let token = braced(e.last().0);
        assert forall|i: int| !occurs_at(t, token, i) by {
            lemma_token_is_braced_name(t, i);
        }
        lemma_replaced_without_occurrence(t, token, e.last().1);
    }
}

/// A run of name characters that ends at `b` has length `b - a`.
proof fn lemma_name_len_run(s: Seq<char>, a: int, b: int)
    requires
        0 <= a <= b <= s.len(),
        forall|k: int| a <= k < b ==> is_name_char(#[trigger] s[k]),
        b == s.len() || !is_name_char(s[b]),
    ensures
        name_len(s, a) == b - a,
    decreases b - a,
{
    if a < b {
        lemma_name_len_run(s, a + 1, b);
    }
}

/// The run that `name_len` measures lies within the text and holds name
/// characters only.
proof fn lemma_name_len_chars(s: Seq<char>, a: int)
    requires
        0 <= a,
    ensures
        a + name_len(s, a) <= s.len() || name_len(s, a) == 0,
        forall|k: int| a <= k < a + name_len(s, a) ==> is_name_char(#[trigger] s[k]),
    decreases s.len() - a,
{
    if a < s.len() && is_name_char(s[a]) {
        lemma_name_len_chars(s, a + 1);
    }
}

/// Where the first entry with a given key stands.
proof fn lemma_key_position(e: Seq<(Seq<char>, Seq<char>)>, key: Seq<char>)
    ensures
        0 <= key_position(e, key) <= e.len(),
        key_position(e, key) < e.len() ==> e[key_position(e, key)].0 == key,
        key_position(e, key) == e.len() ==> forall|i: int|
            0 <= i < e.len() ==> (#[trigger] e[i]).0 != key,
    decreases e.len(),
{
    if e.len() > 0 && e[0].0 != key {
        let rest = e.drop_first();
        lemma_key_position(rest, key);
        if key_position(e, key) == e.len() {
            assert forall|i: int| 0 <= i < e.len() implies (#[trigger] e[i]).0 != key by {
                if i > 0 {
                    assert(e[i] == rest[i - 1]);
                }
            }
        }
    }
}

/// Inserting a name with an empty value into the blank entries of the names
/// seen so far gives the blank entries of the names with that one added.
proof fn lemma_insert_blank(names: Seq<Seq<char>>, name: Seq<char>)
    ensures
        inserted(blank_entries(distinct(names)), name, Seq::<char>::empty()) == blank_entries(
            distinct(names.push(name)),
        ),
{
    let d = distinct(names);
    let e = blank_entries(d);
    let p = key_position(e, name);
    lemma_key_position(e, name);
    assert(names.push(name).drop_last() =~= names);
    assert(names.push(name).last() == name);
    if p < e.len() {
        assert(d[p] == name);
        assert(d.contains(name));
        assert(e.update(p, (name, Seq::<char>::empty())) =~= e);
    } else {
        if d.contains(name) {
            let i = choose|i: int| 0 <= i < d.len() && d[i] == name;
            assert(e[i].0 == name);
        }
        assert(e.push((name, Seq::<char>::empty())) =~= blank_entries(d.push(name)));
    }
}

/// Every name found before a position is a name.
proof fn lemma_names_before_are_names(s: Seq<char>, end: int)
    ensures
        forall|k: int|
            0 <= k < names_before(s, end).len() ==> is_name(#[trigger] names_before(s, end)[k]),
    decreases end,
{
    if end > 0 {
        lemma_names_before_are_names(s, end - 1);
        if token_at(s, end - 1) {
            lemma_name_len_chars(s, end + 1);
            let name = name_at(s, end - 1);
            assert forall|j: int| 0 <= j < name.len() implies is_name_char(#[trigger] name[j]) by {
                assert(name[j] == s[end + 1 + j]);
            }
            assert(is_name(name));
        }
        let before = names_before(s, end - 1);
        let now = names_before(s, end);
        assert forall|k: int| 0 <= k < now.len() implies is_name(#[trigger] now[k]) by {
            if k < before.len() {
                assert(now[k] == before[k]);
            }
        }
    }
}

/// Removing the repetitions keeps nothing that was not there, and leaves
/// nothing twice.
proof fn lemma_distinct(names: Seq<Seq<char>>)
    ensures
        forall|k: int|
            0 <= k < distinct(names).len() ==> names.contains(#[trigger] distinct(names)[k]),
        forall|k: int| 0 <= k < names.len() ==> distinct(names).contains(#[trigger] names[k]),
        forall|i: int, j: int|
            0 <= i < j < distinct(names).len() ==> distinct(names)[i] != distinct(names)[j],
    decreases names.len(),
{
    if names.len() > 0 {
        let front = names.drop_last();
        let d = distinct(front);
        lemma_distinct(front);
        assert forall|k: int| 0 <= k < distinct(names).len() implies names.contains(
            #[trigger] distinct(names)[k],
        ) by {
            if k < d.len() {
                let at = choose|at: int| 0 <= at < front.len() && front[at] == d[k];
                assert(names[at] == d[k]);
            } else {
                assert(names[names.len() - 1] == distinct(names)[k]);
            }
        }
        assert forall|k: int| 0 <= k < names.len() implies distinct(names).contains(
            #[trigger] names[k],
        ) by {
            if k < front.len() {
                assert(front[k] == names[k]);
                let at = choose|at: int| 0 <= at < d.len() && d[at] == front[k];
                assert(distinct(names)[at] == names[k]);
            } else if d.contains(names.last()) {
            } else {
                assert(distinct(names)[d.len() as int] == names[k]);
            }
        }
    }
}

/// Where no token starts, no name is found.
proof fn lemma_no_names_before(t: Seq<char>, end: int)
    requires
        forall|i: int| !token_at(t, i),
    ensures
        names_before(t, end) == Seq::<Seq<char>>::empty(),
    decreases end,
{
    if end > 0 {
        lemma_no_names_before(t, end - 1);
    }
}

/// The names found before a position are those of the tokens that start
/// before it.
proof fn lemma_names_before_cover(t: Seq<char>, end: int, name: Seq<char>)
    ensures
        names_before(t, end).contains(name) <==> exists|i: int|
            i < end && #[trigger] token_at(t, i) && name_at(t, i) == name,
    decreases end,
{
    if end > 0 {
        lemma_names_before_cover(t, end - 1, name);
        let before = names_before(t, end - 1);
        let now = names_before(t, end);
        if now.contains(name) {
            let k = choose|k: int| 0 <= k < now.len() && now[k] == name;
            if k < before.len() {
                assert(before[k] == name);
                assert(before.contains(name));
            } else {
                assert(token_at(t, end - 1) && name_at(t, end - 1) == name);
            }
        }
        if exists|i: int| i < end && #[trigger] token_at(t, i) && name_at(t, i) == name {
            let i = choose|i: int| i < end && #[trigger] token_at(t, i) && name_at(t, i) == name;
            if i < end - 1 {
                assert(before.contains(name));
                let k = choose|k: int| 0 <= k < before.len() && before[k] == name;
                assert(now[k] == name);
            } else {
                assert(now[now.len() - 1] == name);
            }
        }
    }
}

} // verus!
