//! The plugin's configuration, read from the host's key/value settings.

use crate::text::{lower_of, lowercase, texts, trim_of};
use std::collections::BTreeMap;
use vstd::prelude::*;
use vstd::string::*;

verus! {

/// How the session list is ordered.
#[derive(Debug, Clone, Copy, Default, PartialEq, Eq, Structural)]
pub enum SortOrder {
    /// Most recently used sessions first.
    #[default]
    Mru,
    /// By session name.
    Alphabetical,
}

/// The pieces of `s` between occurrences of `sep`, in order: one more piece
/// than there are separators, empty pieces included.
pub open spec fn split_on(s: Seq<char>, sep: char) -> Seq<Seq<char>>
    decreases s.len(),
{
    if s.len() == 0 {
        seq![Seq::<char>::empty()]
    } else {
        let rest = split_on(s.drop_last(), sep);
        if s.last() == sep {
            rest.push(Seq::<char>::empty())
        } else {
            rest.update(rest.len() - 1, rest.last().push(s.last()))
        }
    }
}

/// The value stored under the key whose text is `k`, if any.
pub open spec fn entry_text(m: Map<String, String>, k: Seq<char>) -> Option<Seq<char>> {
    if exists|s: String| m.contains_key(s) && s@ == k {
        Some(m[choose|s: String| m.contains_key(s) && s@ == k]@)
    } else {
        None
    }
}

/// The base paths that a setting lists: its `|`-separated pieces, trimmed,
/// the empty ones left out.
pub open spec fn path_list(v: Seq<char>) -> Seq<Seq<char>> {
    split_on(v, '|').map_values(|p: Seq<char>| trim_of(p)).filter(|p: Seq<char>| p.len() > 0)
}

/// The sort order that a setting names: alphabetical when it reads
/// `alphabetical` in any case, most recently used otherwise.
pub open spec fn sort_order_of(v: Seq<char>) -> SortOrder {
    if lower_of(v) == "alphabetical"@ {
        SortOrder::Alphabetical
    } else {
        SortOrder::Mru
    }
}

/// A flag setting: on when it reads exactly `true`.
pub open spec fn flag_of(v: Option<Seq<char>>) -> bool {
    v == Some("true"@)
}

/// Relies on `BTreeMap::get`: the value stored under the key with the text
/// of `key`.
#[verifier::external_body]
fn setting(config: &BTreeMap<String, String>, key: &str) -> (r: Option<String>)
    ensures
        match r {
            Some(v) => entry_text(config@, key@) == Some(v@),
            None => entry_text(config@, key@) is None,
        },
{
    config.get(key).cloned()
}

/// Relies on `str::split` with a `char` pattern: the pieces between the
/// occurrences of `|`.
#[verifier::external_body]
fn split_at_bars(s: &str) -> (r: Vec<String>)
    ensures
        texts(r@) == split_on(s@, '|'),
{
    s.split('|').map(|p| p.to_string()).collect()
}

/// Relies on `str::trim`: the text without leading and trailing white space.
#[verifier::external_body]
fn trimmed(s: &str) -> (r: String)
    ensures
        r@ == trim_of(s@),
{
    s.trim().to_string()
}

impl SortOrder {
    /// Reads a sort order setting, ignoring case; anything but
    /// `alphabetical` means most recently used.
    pub fn from_config_str(s: &str) -> (r: SortOrder)
        ensures
            r == sort_order_of(s@),
    {
        proof {
            reveal_strlit("alphabetical");
        }
        if lowercase(s) == String::from_str("alphabetical") {
            SortOrder::Alphabetical
        } else {
            SortOrder::Mru
        }
    }
}

/// The plugin's settings.
#[derive(Debug, Clone)]
pub struct Config {
    /// Layout for quick session creation.
    pub default_layout: Option<String>,
    /// Separator between a session name and its number.
    pub session_separator: String,
    /// Whether resurrectable sessions are listed.
    pub show_resurrectable_sessions: bool,
    /// Prefixes stripped from directories when names are made from them.
    pub base_paths: Vec<String>,
    /// Whether sessions without a matching directory are listed.
    pub show_all_sessions: bool,
    /// Order of the session list.
    pub sort_order: SortOrder,
}

/// The text of an optional string.
pub open spec fn opt_text(v: Option<String>) -> Option<Seq<char>> {
    match v {
        Some(s) => Some(s@),
        None => None,
    }
}

impl Config {
    /// The settings that `config` gives, each missing one at its default: no
    /// default layout, separator `.`, flags off, no base paths, most recently
    /// used order.
    pub fn from_zellij_config(config: &BTreeMap<String, String>) -> (r: Config)
        ensures
            opt_text(r.default_layout) == entry_text(config@, "default_layout"@),
            r.session_separator@ == match entry_text(config@, "session_separator"@) {
                Some(v) => v,
                None => "."@,
            },
            r.show_resurrectable_sessions == flag_of(
                entry_text(config@, "show_resurrectable_sessions"@),
            ),
            texts(r.base_paths@) == match entry_text(config@, "base_paths"@) {
                Some(v) => path_list(v),
                None => Seq::<Seq<char>>::empty(),
            },
            r.show_all_sessions == flag_of(entry_text(config@, "show_all_sessions"@)),
            r.sort_order == match entry_text(config@, "sort_order"@) {
                Some(v) => sort_order_of(v),
                None => SortOrder::Mru,
            },
    {
        proof {
            reveal_strlit("default_layout");
            reveal_strlit("session_separator");
            reveal_strlit("show_resurrectable_sessions");
            reveal_strlit("base_paths");
            reveal_strlit("show_all_sessions");
            reveal_strlit("sort_order");
            reveal_strlit(".");
            reveal_strlit("true");
        }
        let default_layout = setting(config, "default_layout");
        let session_separator = match setting(config, "session_separator") {
            Some(v) => v,
            None => String::from_str("."),
        };
        let show_resurrectable_sessions = match setting(config, "show_resurrectable_sessions") {
            Some(v) => v == String::from_str("true"),
            None => false,
        };
        let base_paths = match setting(config, "base_paths") {
            Some(v) => base_path_list(v.as_str()),
            None => Vec::new(),
        };
        let show_all_sessions = match setting(config, "show_all_sessions") {
            Some(v) => v == String::from_str("true"),
            None => false,
        };
        let sort_order = match setting(config, "sort_order") {
            Some(v) => SortOrder::from_config_str(v.as_str()),
            None => SortOrder::Mru,
        };
        proof {
            assert(texts(Seq::<String>::empty()) =~= Seq::<Seq<char>>::empty());
        }
        Config {
            default_layout,
            session_separator,
            show_resurrectable_sessions,
            base_paths,
            show_all_sessions,
            sort_order,
        }
    }
}

/// The base paths that setting `v` lists.
fn base_path_list(v: &str) -> (r: Vec<String>)
    ensures
        texts(r@) == path_list(v@),
{
    let pieces = split_at_bars(v);
    let ghost trimmed_all = split_on(v@, '|').map_values(|p: Seq<char>| trim_of(p));
    let ghost nonempty = |p: Seq<char>| p.len() > 0;
    let mut r: Vec<String> = Vec::new();
    let mut i: usize = 0;
    proof {
        reveal(Seq::filter);
        assert(trimmed_all.take(0).filter(nonempty) =~= Seq::<Seq<char>>::empty());
        assert(texts(r@) =~= Seq::<Seq<char>>::empty());
    }
    while i < pieces.len()
        invariant
            i <= pieces@.len(),
            texts(pieces@) == split_on(v@, '|'),
            trimmed_all == split_on(v@, '|').map_values(|p: Seq<char>| trim_of(p)),
            nonempty == (|p: Seq<char>| p.len() > 0),
            texts(r@) == trimmed_all.take(i as int).filter(nonempty),
        decreases pieces@.len() - i,
    {
        let t = trimmed(pieces[i].as_str());
        let ghost before = r@;
        let keep = !t.as_str().is_empty();
        if keep {
            r.push(t);
        }
        proof {
            reveal(Seq::filter);
            let p1 = trimmed_all.take(i + 1);
            assert(p1.drop_last() =~= trimmed_all.take(i as int));
            assert(texts(pieces@)[i as int] == pieces@[i as int]@);
            assert(p1.last() == trim_of(pieces@[i as int]@));
            if keep {
                assert(texts(r@) =~= texts(before).push(t@));
            }
        }
        i = i + 1;
    }
    proof {
        assert(trimmed_all.take(pieces@.len() as int) =~= trimmed_all);
    }
    r
}

impl Default for Config {
    fn default() -> (r: Config)
        ensures
            r.default_layout is None,
            r.session_separator@ == "."@,
            !r.show_resurrectable_sessions,
            r.base_paths@.len() == 0,
            !r.show_all_sessions,
            r.sort_order == SortOrder::Mru,
    {
        proof {
            reveal_strlit(".");
        }
        Config {
            default_layout: None,
            session_separator: String::from_str("."),
            show_resurrectable_sessions: false,
            base_paths: Vec::new(),
            show_all_sessions: false,
            sort_order: SortOrder::Mru,
        }
    }
}

} // verus!
