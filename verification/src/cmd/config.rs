//! Viewing and changing the configuration.

use vstd::prelude::*;

use crate::text::{chars_between, chars_of, find_char, string_of};

verus! {

/// What the config command does.
#[derive(Debug)]
pub enum ConfigAction {
    /// Shows an example.
    Example,
    /// Shows the path of the file.
    Path {
        /// Whether the file is created.
        create: bool,
    },
    /// Shows a value.
    Get {
        /// The key.
        key: String,
    },
    /// Changes a value.
    Assign {
        /// The key.
        key: String,
        /// The new value.
        value: String,
    },
    /// The new value is not of the form `key=value`.
    InvalidFormat,
    /// Shows all values.
    List,
}

/// The key and the value: what stands before and after the first equals sign.
pub open spec fn assignment(s: Seq<char>) -> Option<(Seq<char>, Seq<char>)> {
    let i = crate::text::first_index(s, '=');
    if i < s.len() {
        Some((s.take(i), s.skip(i + 1)))
    } else {
        None
    }
}

/// Splits an assignment into key and value.
pub fn split_assignment(s: &str) -> (r: Option<(String, String)>)
    ensures
        match r {
            Some((k, v)) => assignment(s@) == Some((k@, v@)),
            None => assignment(s@) is None,
        },
{
    let chars = chars_of(s);
    assert(chars@.skip(0) =~= chars@);
    match find_char(chars.as_slice(), 0, '=') {
        Some(i) => {
            let key = chars_between(chars.as_slice(), 0, i);
            let value = chars_between(chars.as_slice(), i + 1, chars.len());
            assert(key@ =~= s@.take(i as int));
            assert(value@ =~= s@.skip(i + 1));
            Some((string_of(key.as_slice()), string_of(value.as_slice())))
        },
        None => None,
    }
}

/// `a` is what the config command does with its arguments: an example comes before
/// the path, the path before a value to show, that before a value to change, and
/// without any of these all values are shown.
pub open spec fn is_config_action(
    example: bool,
    path: bool,
    create: bool,
    get: Option<String>,
    set: Option<String>,
    a: ConfigAction,
) -> bool {
    if example {
        a is Example
    } else if path {
        a == (ConfigAction::Path { create })
    } else {
        match (get, set) {
            (Some(key), _) => a == (ConfigAction::Get { key }),
            (None, Some(s)) => match assignment(s@) {
                Some((k, v)) => a matches ConfigAction::Assign { key, value } && key@ == k && value@ == v,
                None => a is InvalidFormat,
            },
            (None, None) => a is List,
        }
    }
}

/// Decides what the config command does.
pub fn config_action(example: bool, path: bool, create: bool, get: Option<String>, set: Option<String>) -> (a:
    ConfigAction)
    ensures
        is_config_action(example, path, create, get, set, a),
{
    if example {
        return ConfigAction::Example;
    }
    if path {
        return ConfigAction::Path { create };
    }
    match get {
        Some(key) => ConfigAction::Get { key },
        None => match set {
            Some(s) => match split_assignment(s.as_str()) {
                Some((key, value)) => ConfigAction::Assign { key, value },
                None => ConfigAction::InvalidFormat,
            },
            None => ConfigAction::List,
        },
    }
}

/// A new value is what follows the first equals sign, and the key what stands before it.
pub proof fn assignments_have_an_equals_sign(key: Seq<char>, value: Seq<char>)
    requires
        !key.contains('='),
    ensures
        assignment(key + seq!['='] + value) == Some((key, value)),
        assignment(key) is None,
{
    let s = key + seq!['='] + value;
    assert forall|j: int| 0 <= j < key.len() implies #[trigger] s[j] != '=' by {
        assert(s[j] == key[j]);
    }
    assert(s[key.len() as int] == '=');
    crate::text::lemma_first_index(s, '=', key.len() as int);
    crate::text::lemma_first_index(key, '=', key.len() as int);
    assert(s.take(key.len() as int) =~= key);
    assert(s.skip(key.len() as int + 1) =~= value);
}

/// A value is changed only where that alone is asked for; to show an example or the path
/// comes first, then to show a value.
pub proof fn settings_change_only_on_request(
    example: bool,
    path: bool,
    create: bool,
    get: Option<String>,
    set: Option<String>,
    a: ConfigAction,
)
    requires
        is_config_action(example, path, create, get, set, a),
    ensures
        a is Example <==> example,
        a is Path <==> !example && path,
        a is Path ==> a->create == create,
        a is Get <==> !example && !path && get is Some,
        a is Get ==> a->Get_key == get->0,
        a is Assign ==> !example && !path && get is None && set is Some && set->0@ == a->Assign_key@ + seq!['=']
            + a->value@ && !a->Assign_key@.contains('='),
        a is List <==> !example && !path && get is None && set is None,
{
    if a is Assign {
        let s = set->0@;
        crate::text::lemma_first_index_range(s, '=');
        let i = crate::text::first_index(s, '=');
        assert(s =~= s.take(i) + seq!['='] + s.skip(i + 1));
        assert forall|j: int| 0 <= j < i implies #[trigger] s.take(i)[j] != '=' by {
            assert(s.take(i)[j] == s[j]);
        }
    }
}

} // verus!
