//! Exclude patterns: shell globs matched against a whole normalized relative
//! path, and the serialized list in which a transfer remembers them.

use vstd::prelude::*;
use vstd::string::*;

verus! {

/// A compiled pattern of the `glob` crate; opaque to the verifier.
#[verifier::external_type_specification]
#[verifier::external_body]
pub struct ExPattern(glob::Pattern);

/// The error `glob` reports for a pattern it cannot compile.
#[verifier::external_type_specification]
#[verifier::external_body]
pub struct ExPatternError(glob::PatternError);

/// The error `serde_json` reports when it cannot write or read JSON.
#[verifier::external_type_specification]
#[verifier::external_body]
pub struct ExJsonError(serde_json::Error);

/// Whether `glob::Pattern::new` accepts the pattern text.
pub uninterp spec fn glob_valid(text: Seq<char>) -> bool;

/// The text a compiled pattern was made from, as `glob::Pattern::as_str`
/// gives it back.
pub uninterp spec fn pattern_text(p: glob::Pattern) -> Seq<char>;

/// Whether the pattern compiled from `text` matches all of `path`, as
/// `glob::Pattern::matches` decides it with its default options on the
/// platform the library is built for.
pub uninterp spec fn glob_matches(text: Seq<char>, path: Seq<char>) -> bool;

/// The JSON text that `serde_json::to_string` writes for a list of strings.
pub uninterp spec fn json_of_list(items: Seq<Seq<char>>) -> Seq<char>;

/// The list of strings that `serde_json::from_str` reads out of a JSON text,
/// or `None` where it reports an error.
pub uninterp spec fn list_of_json(text: Seq<char>) -> Option<Seq<Seq<char>>>;

/// Calls `glob::Pattern::new`. The call succeeds exactly on the texts that
/// `glob_valid` names, and the compiled pattern remembers its text.
#[verifier::external_body]
fn compile(text: &str) -> (r: Result<glob::Pattern, glob::PatternError>)
    ensures
        r is Ok <==> glob_valid(text@),
        r is Ok ==> pattern_text(r->Ok_0) == text@,
{
    glob::Pattern::new(text)
}

/// Calls `glob::Pattern::matches`, whose answer depends on the pattern's
/// text and the candidate string alone.
#[verifier::external_body]
fn matches(p: &glob::Pattern, path: &str) -> (b: bool)
    ensures
        b == glob_matches(pattern_text(*p), path@),
{
    p.matches(path)
}

/// Calls `serde_json::to_string` on a list of strings. The call succeeds:
/// for strings and sequences the serializer reports no error but its
/// writer's, and it writes into a byte vector, which takes every byte. The
/// text is the one `json_of_list` names.
#[verifier::external_body]
fn list_to_json(items: &Vec<String>) -> (r: Result<String, serde_json::Error>)
    ensures
        r is Ok,
        r->Ok_0@ == json_of_list(texts(items@)),
{
    serde_json::to_string(items)
}

/// Calls `serde_json::from_str` for a list of strings. It yields the list
/// that `list_of_json` names, and an error exactly where that is `None`.
#[verifier::external_body]
fn json_to_list(text: &str) -> (r: Result<Vec<String>, serde_json::Error>)
    ensures
        r is Ok ==> list_of_json(text@) == Some(texts(r->Ok_0@)),
        r is Err ==> list_of_json(text@) is None,
{
    serde_json::from_str(text)
}

/// The contents of a run of strings.
pub open spec fn texts(items: Seq<String>) -> Seq<Seq<char>> {
    items.map_values(|s: String| s@)
}

/// The texts of `patterns`, in order.
pub open spec fn texts_of(patterns: Seq<glob::Pattern>) -> Seq<Seq<char>> {
    patterns.map_values(|p: glob::Pattern| pattern_text(p))
}

/// The test `glob_valid`, as a value.
pub open spec fn valid() -> spec_fn(Seq<char>) -> bool {
    |text: Seq<char>| glob_valid(text)
}

/// Whether any of the pattern texts matches `path`.
pub open spec fn any_matches(patterns: Seq<Seq<char>>, path: Seq<char>) -> bool {
    exists|i: int| 0 <= i < patterns.len() && glob_matches(#[trigger] patterns[i], path)
}

/// Compiles the patterns that compile and drops the others, keeping order.
pub fn compile_patterns(raw: &Vec<String>) -> (patterns: Vec<glob::Pattern>)
    ensures
        texts_of(patterns@) == texts(raw@).filter(valid()),
{
    let mut patterns: Vec<glob::Pattern> = Vec::new();
    let mut i: usize = 0;
    proof {
        reveal(Seq::filter);
        assert(texts(raw@).take(0) =~= Seq::<Seq<char>>::empty());
        assert(texts_of(patterns@) =~= Seq::<Seq<char>>::empty());
    }
    while i < raw.len()
        invariant
            i <= raw.len(),
            texts_of(patterns@) == texts(raw@).take(i as int).filter(valid()),
        decreases raw.len() - i,
    {
        proof {
            let seen = texts(raw@).take(i as int);
            assert(texts(raw@).take(i + 1) =~= seen.push(raw@[i as int]@));
            seen.lemma_filter_push(raw@[i as int]@, valid());
        }
        match compile(raw[i].as_str()) {
            Ok(p) => {
                assert(texts_of(patterns@.push(p)) =~= texts_of(patterns@).push(pattern_text(p)));
                patterns.push(p);
            },
            Err(_) => {},
        }
        i += 1;
    }
    assert(texts(raw@).take(raw@.len() as int) =~= texts(raw@));
    patterns
}

/// True when some pattern matches the whole path.
pub fn is_excluded(patterns: &Vec<glob::Pattern>, path: &str) -> (b: bool)
    ensures
        b == any_matches(texts_of(patterns@), path@),
{
    let mut i: usize = 0;
    while i < patterns.len()
        invariant
            i <= patterns.len(),
            forall|j: int| 0 <= j < i ==> !glob_matches(#[trigger] texts_of(patterns@)[j], path@),
        decreases patterns.len() - i,
    {
        if matches(&patterns[i], path) {
            assert(glob_matches(texts_of(patterns@)[i as int], path@));
            return true;
        }
        i += 1;
    }
    false
}

/// The patterns a run works with, and what it has to store for later runs.
#[derive(Debug)]
pub struct ExcludeChoice {
    /// The patterns in force.
    pub patterns: Vec<String>,
    /// The serialized list to store with the transfer, where it changed.
    pub persist: Option<String>,
}

/// The stored form of a pattern list: none for the empty list, else its JSON.
pub open spec fn stored_form(patterns: Seq<Seq<char>>) -> Option<Seq<char>> {
    if patterns.len() == 0 {
        None
    } else {
        Some(json_of_list(patterns))
    }
}

/// Puts a pattern list into its stored form.
pub fn encode_excludes(patterns: &Vec<String>) -> (stored: Option<String>)
    ensures
        crate::text::opt_text(stored) == stored_form(texts(patterns@)),
{
    assert(texts(patterns@).len() == patterns@.len());
    if patterns.len() == 0 {
        return None;
    }
    match list_to_json(patterns) {
        Ok(json) => Some(json),
        Err(_) => vstd::pervasive::unreached(),
    }
}

/// The list a stored form stands for: what the JSON holds, and nothing when
/// there is no stored form or it cannot be read.
pub open spec fn stored_list(stored: Option<Seq<char>>) -> Seq<Seq<char>> {
    match stored {
        Some(json) => match list_of_json(json) {
            Some(list) => list,
            None => Seq::empty(),
        },
        None => Seq::empty(),
    }
}

/// Reads a stored pattern list back.
pub fn decode_excludes(stored: &Option<String>) -> (patterns: Vec<String>)
    ensures
        texts(patterns@) == stored_list(crate::text::opt_text(*stored)),
{
    match stored {
        Some(json) => match json_to_list(json.as_str()) {
            Ok(list) => list,
            Err(_) => {
                let none: Vec<String> = Vec::new();
                assert(texts(none@) =~= Seq::<Seq<char>>::empty());
                none
            },
        },
        None => {
            let none: Vec<String> = Vec::new();
            assert(texts(none@) =~= Seq::<Seq<char>>::empty());
            none
        },
    }
}

/// The patterns in force when `given` are asked for and `stored` is what
/// the transfer remembers: those given, or without any the stored ones.
pub open spec fn in_force(given: Seq<Seq<char>>, stored: Option<Seq<char>>) -> Seq<Seq<char>> {
    if given.len() == 0 {
        stored_list(stored)
    } else {
        given
    }
}

/// Settles the patterns of a resumed or restarted run: patterns given on
/// the command line win and are to be stored; without any, the stored ones
/// are in force and nothing is stored.
pub fn resolve_excludes(given: Vec<String>, stored: &Option<String>) -> (choice: ExcludeChoice)
    ensures
        texts(choice.patterns@) == in_force(texts(given@), crate::text::opt_text(*stored)),
        crate::text::opt_text(choice.persist) == stored_form(texts(given@)),
{
    assert(texts(given@).len() == given@.len());
    if given.len() == 0 {
        let patterns = decode_excludes(stored);
        ExcludeChoice { patterns, persist: None }
    } else {
        let persist = encode_excludes(&given);
        ExcludeChoice { patterns: given, persist }
    }
}

} // verus!
